//! Deployment planning: which transport a deployment request uses, and the
//! remote paths and commands of an SSH deployment.

use vstd::prelude::*;
use vstd::string::StringExecFns;
use crate::text::str_eq;

verus! {

/// Why a deployment request cannot proceed.
#[derive(Debug)]
pub enum DeployError {
    /// The binary to deploy does not exist (its path is given).
    BinaryNotFound(String),
    /// SSH deployment needs a user name.
    UsernameRequired,
    /// Serial deployment is not available.
    SerialNotImplemented,
    /// The deployment method is not known (its name is given).
    UnsupportedMethod(String),
}

/// How a binary is deployed.
#[derive(Debug)]
pub enum DeployMethod {
    Ssh { username: String, password: Option<String> },
    Serial,
}

/// The outcome of planning a deployment, over the request's fields.
pub open spec fn deploy_plan_spec(
    binary: Seq<char>,
    binary_exists: bool,
    method: Seq<char>,
    username: Option<Seq<char>>,
    password: Option<Seq<char>>,
    res: Result<DeployMethod, DeployError>,
) -> bool {
    if !binary_exists {
        res matches Err(DeployError::BinaryNotFound(b)) && b@ == binary
    } else if method == "ssh"@ {
        match username {
            None => res matches Err(DeployError::UsernameRequired),
            Some(u) => res matches Ok(DeployMethod::Ssh { username, password: p }) && username@ == u
                && match (p, password) {
                (Some(x), Some(y)) => x@ == y,
                (None, None) => true,
                _ => false,
            },
        }
    } else if method == "serial"@ {
        res matches Ok(DeployMethod::Serial)
    } else {
        res matches Err(DeployError::UnsupportedMethod(m)) && m@ == method
    }
}

/// Decides how to deploy: the binary must exist; `ssh` needs a user name,
/// `serial` is accepted, any other method is refused.
pub fn plan_deploy(
    binary: &str,
    binary_exists: bool,
    method: &str,
    username: Option<&str>,
    password: Option<&str>,
) -> (res: Result<DeployMethod, DeployError>)
    ensures
        deploy_plan_spec(
            binary@,
            binary_exists,
            method@,
            match username {
                Some(u) => Some(u@),
                None => None,
            },
            match password {
                Some(p) => Some(p@),
                None => None,
            },
            res,
        ),
{
    if !binary_exists {
        return Err(DeployError::BinaryNotFound(String::from_str(binary)));
    }
    if str_eq(method, "ssh") {
        match username {
            None => Err(DeployError::UsernameRequired),
            Some(u) => {
                let password = match password {
                    Some(p) => Some(String::from_str(p)),
                    None => None,
                };
                Ok(DeployMethod::Ssh { username: String::from_str(u), password })
            },
        }
    } else if str_eq(method, "serial") {
        Ok(DeployMethod::Serial)
    } else {
        Err(DeployError::UnsupportedMethod(String::from_str(method)))
    }
}

/// Deploy via serial connection: not available, always refused.
pub fn deploy_serial(binary_path: &str, target: &str, destination: &str) -> (res: Result<
    (),
    DeployError,
>)
    ensures
        res matches Err(DeployError::SerialNotImplemented),
{
    Err(DeployError::SerialNotImplemented)
}

/// `dir` joined with the relative name `name`, as a Unix path join does.
pub open spec fn path_join(dir: Seq<char>, name: Seq<char>) -> Seq<char> {
    if dir.len() == 0 {
        name
    } else if dir.last() == '/' {
        dir + name
    } else {
        dir + "/"@ + name
    }
}

/// Where the deployed binary is placed on the device.
pub fn remote_binary_path(destination: &str) -> (p: String)
    ensures
        p@ == path_join(destination@, "edgebot"@),
{
    let n = destination.unicode_len();
    let mut p = String::from_str(destination);
    if n == 0 {
        return String::from_str("edgebot");
    }
    if destination.get_char(n - 1) != '/' {
        p.append("/");
    }
    p.append("edgebot");
    p
}

/// The remote command that creates the destination directory.
pub fn mkdir_command(destination: &str) -> (c: String)
    ensures
        c@ == "mkdir -p "@ + destination@,
{
    String::from_str("mkdir -p ").concat(destination)
}

/// The remote command that makes the deployed binary executable.
pub fn chmod_command(remote_path: &str) -> (c: String)
    ensures
        c@ == "chmod +x "@ + remote_path@,
{
    String::from_str("chmod +x ").concat(remote_path)
}

} // verus!
