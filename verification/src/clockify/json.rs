//! The shapes of the service's answers.

use vstd::prelude::*;

verus! {

/// The head data of a workspace.
#[derive(Clone, Debug)]
pub struct WorkspaceHeader {
    pub id: String,
    pub name: String,
}

/// The head data of a project.
#[derive(Clone, Debug)]
pub struct ProjectHeader {
    pub id: String,
    pub name: String,
    pub billable: bool,
    pub public: bool,
}

/// The details of a project.
#[derive(Clone, Debug)]
pub struct ProjectInfo {
    pub id: String,
    pub client_id: String,
    pub name: String,
    pub billable: bool,
    pub public: bool,
    pub color: String,
    pub note: String,
}

/// A user as the service lists it.
#[derive(Clone, Debug)]
pub struct UserInfo {
    pub id: String,
    pub name: String,
    pub status: String,
}

/// A user.
#[derive(Clone, Debug)]
pub struct User {
    pub name: String,
    pub status: String,
    pub email: String,
}

/// A single task within a project.
#[derive(Clone, Debug)]
pub struct Task {
    pub id: String,
    pub name: String,
    pub status: String,
}

} // verus!
