//! The error types of the library.  Each carries plain text and can
//! render one message; other layers' errors are carried as their
//! message text.

use vstd::prelude::*;
use crate::chars::{append_chars, chars_of_str, string_from_chars};

verus! {

/// An error raised while generating, scripting or launching a job.
#[derive(Clone, Debug, PartialEq, Eq)]
pub enum JobError {
    LaunchError(String),
    ParserError(String),
    ConfigError(String),
    DatabaseError(String),
    ConfigNotFound(String),
    IoError(String),
    InvalidTimeFormat(String),
    SpawnError(String),
    WaitError(String),
    ExecutionFailed(String),
    Other(String),
}

/// The message of a job error.
pub open spec fn job_error_msg(e: JobError) -> Seq<char> {
    match e {
        JobError::LaunchError(s) => "Launch Error: "@ + s@,
        JobError::ParserError(s) => "Parser Error: "@ + s@,
        JobError::ConfigError(s) => "Config Error: "@ + s@,
        JobError::DatabaseError(s) => "Database Error: "@ + s@,
        JobError::ConfigNotFound(s) => "Config '"@ + s@ + "' not found for cluster"@,
        JobError::IoError(s) => "IO Error: "@ + s@,
        JobError::InvalidTimeFormat(s) => "Invalid Time Format: "@ + s@,
        JobError::SpawnError(s) => "Job Spawn: "@ + s@,
        JobError::WaitError(s) => "Job Wait: "@ + s@,
        JobError::ExecutionFailed(s) => "Job Execution: "@ + s@,
        JobError::Other(s) => "Generic Error: "@ + s@,
    }
}

/// Joins a prefix and a payload into one message.
fn compose2(prefix: &str, payload: &String) -> (r: String)
    ensures
        r@ == prefix@ + payload@,
{
    let mut cs = chars_of_str(prefix);
    let mid = chars_of_str(payload.as_str());
    append_chars(&mut cs, &mid);
    string_from_chars(&cs)
}

/// Joins a prefix, a payload and a suffix into one message.
fn compose_msg(prefix: &str, payload: &String, suffix: &str) -> (r: String)
    ensures
        r@ == prefix@ + payload@ + suffix@,
{
    let mut cs = chars_of_str(prefix);
    let mid = chars_of_str(payload.as_str());
    append_chars(&mut cs, &mid);
    let tail = chars_of_str(suffix);
    append_chars(&mut cs, &tail);
    string_from_chars(&cs)
}

impl JobError {
    /// Renders the error as one message line.
    pub fn message(&self) -> (r: String)
        ensures
            r@ == job_error_msg(*self),
    {
        match self {
            JobError::LaunchError(s) => compose2("Launch Error: ", s),
            JobError::ParserError(s) => compose2("Parser Error: ", s),
            JobError::ConfigError(s) => compose2("Config Error: ", s),
            JobError::DatabaseError(s) => compose2("Database Error: ", s),
            JobError::ConfigNotFound(s) => compose_msg(
                "Config '",
                s,
                "' not found for cluster",
            ),
            JobError::IoError(s) => compose2("IO Error: ", s),
            JobError::InvalidTimeFormat(s) => compose2("Invalid Time Format: ", s),
            JobError::SpawnError(s) => compose2("Job Spawn: ", s),
            JobError::WaitError(s) => compose2("Job Wait: ", s),
            JobError::ExecutionFailed(s) => compose2("Job Execution: ", s),
            JobError::Other(s) => compose2("Generic Error: ", s),
        }
    }
}

/// Attaches a description to an error's text, as an IO job error.
pub fn map_err_adding_description(error: &String, description: &str) -> (r: JobError)
    ensures
        r matches JobError::IoError(m) && m@ == description@ + ": "@ + error@,
{
    let mut cs = chars_of_str(description);
    let sep = chars_of_str(": ");
    append_chars(&mut cs, &sep);
    let tail = chars_of_str(error.as_str());
    append_chars(&mut cs, &tail);
    JobError::IoError(string_from_chars(&cs))
}

/// A top-level error of the library.
#[derive(Clone, Debug, PartialEq, Eq)]
pub enum SbatchmanError {
    StorageError(String),
    ParserError(String),
    ConfigError(String),
    NoClusterSet,
    JobError(String),
}

/// The message of a top-level error.
pub open spec fn sbatchman_error_msg(e: SbatchmanError) -> Seq<char> {
    match e {
        SbatchmanError::StorageError(s) => "Storage Error: "@ + s@,
        SbatchmanError::ParserError(s) => "Parser Error: "@ + s@,
        SbatchmanError::ConfigError(s) => "Config Error: "@ + s@,
        SbatchmanError::NoClusterSet =>
            "No cluster set. Please set a cluster before launching jobs using `set-cluster` command."@,
        SbatchmanError::JobError(s) => "Job Error: "@ + s@,
    }
}

impl SbatchmanError {
    /// Renders the error as one message line.
    pub fn message(&self) -> (r: String)
        ensures
            r@ == sbatchman_error_msg(*self),
    {
        match self {
            SbatchmanError::StorageError(s) => compose2("Storage Error: ", s),
            SbatchmanError::ParserError(s) => compose2("Parser Error: ", s),
            SbatchmanError::ConfigError(s) => compose2("Config Error: ", s),
            SbatchmanError::NoClusterSet => String::from_str(
                "No cluster set. Please set a cluster before launching jobs using `set-cluster` command.",
            ),
            SbatchmanError::JobError(s) => compose2("Job Error: ", s),
        }
    }
}

/// An error raised while recording a cluster with its configurations.
#[derive(Clone, Debug, PartialEq, Eq)]
pub enum ClusterConfigError {
    StorageError(String),
}

impl ClusterConfigError {
    /// Renders the error as one message line.
    pub fn message(&self) -> (r: String)
        ensures
            self matches ClusterConfigError::StorageError(s) ==> r@ == "Storage Error: "@ + s@,
    {
        match self {
            ClusterConfigError::StorageError(s) => compose2("Storage Error: ", s),
        }
    }
}

/// An error raised by the tool-configuration layer.
#[derive(Clone, Debug, PartialEq, Eq)]
pub enum ConfigError {
    ConfigError(String),
}

impl ConfigError {
    /// Renders the error as one message line.
    pub fn message(&self) -> (r: String)
        ensures
            self matches ConfigError::ConfigError(s) ==> r@ == "Configuration error: "@ + s@,
    {
        match self {
            ConfigError::ConfigError(s) => compose2("Configuration error: ", s),
        }
    }
}

/// An error raised by the per-machine configuration store.
#[derive(Clone, Debug, PartialEq, Eq)]
pub enum SbatchmanConfigError {
    FilesystemError(String),
    SbatchmanDirNotFound,
    ConfyError(String),
    SbatchmanConfigNotFound,
    DatabaseError(String),
}

impl SbatchmanConfigError {
    /// Renders the error as one message line.
    pub fn message(&self) -> (r: String)
        ensures
            self matches SbatchmanConfigError::FilesystemError(s) ==> r@ == "Filesystem error: "@
                + s@,
            self is SbatchmanDirNotFound ==> r@ == "Could not find .sbatchman directory"@,
            self matches SbatchmanConfigError::ConfyError(s) ==> r@ == "IO Error: "@ + s@,
            self is SbatchmanConfigNotFound ==> r@ == "Sbatchman config not found"@,
            self matches SbatchmanConfigError::DatabaseError(s) ==> r@ == "Database error: "@
                + s@,
    {
        match self {
            SbatchmanConfigError::FilesystemError(s) => compose2("Filesystem error: ", s),
            SbatchmanConfigError::SbatchmanDirNotFound => String::from_str(
                "Could not find .sbatchman directory",
            ),
            SbatchmanConfigError::ConfyError(s) => compose2("IO Error: ", s),
            SbatchmanConfigError::SbatchmanConfigNotFound => String::from_str(
                "Sbatchman config not found",
            ),
            SbatchmanConfigError::DatabaseError(s) => compose2("Database error: ", s),
        }
    }
}

} // verus!
