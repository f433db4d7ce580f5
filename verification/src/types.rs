//! Core enumerations of the content model.

use vstd::prelude::*;

verus! {

/// Kind of a node in the content hierarchy.
#[derive(Debug, Clone, Copy, PartialEq, Eq, Structural)]
pub enum ItemKind {
    Movie,
    Series,
    Season,
    Episode,
}

impl ItemKind {
    /// The stable string form stored with an item.
    pub fn as_str(self) -> (r: &'static str)
        ensures
            self is Movie ==> r@ == "movie"@,
            self is Series ==> r@ == "series"@,
            self is Season ==> r@ == "season"@,
            self is Episode ==> r@ == "episode"@,
    {
        match self {
            Self::Movie => "movie",
            Self::Series => "series",
            Self::Season => "season",
            Self::Episode => "episode",
        }
    }
}

/// Library content type.
#[derive(Debug, Clone, Copy, PartialEq, Eq, Structural)]
pub enum LibraryKind {
    Movies,
    TvShows,
}

impl LibraryKind {
    /// The stable string form stored with a library.
    pub fn as_str(self) -> (r: &'static str)
        ensures
            self is Movies ==> r@ == "movies"@,
            self is TvShows ==> r@ == "tv_shows"@,
    {
        match self {
            Self::Movies => "movies",
            Self::TvShows => "tv_shows",
        }
    }
}

/// User role.
#[derive(Debug, Clone, Copy, PartialEq, Eq, Structural)]
pub enum UserRole {
    Admin,
    User,
}

impl UserRole {
    /// The stable string form stored with a user.
    pub fn as_str(self) -> (r: &'static str)
        ensures
            self is Admin ==> r@ == "admin"@,
            self is User ==> r@ == "user"@,
    {
        match self {
            Self::Admin => "admin",
            Self::User => "user",
        }
    }
}

/// Job status. `Completed`, `Failed` and `Cancelled` are terminal.
#[derive(Debug, Clone, Copy, PartialEq, Eq, Structural)]
pub enum JobStatus {
    Queued,
    Running,
    Completed,
    Failed,
    Cancelled,
}

impl JobStatus {
    /// The stable string form stored with a job.
    pub fn as_str(self) -> (r: &'static str)
        ensures
            self is Queued ==> r@ == "queued"@,
            self is Running ==> r@ == "running"@,
            self is Completed ==> r@ == "completed"@,
            self is Failed ==> r@ == "failed"@,
            self is Cancelled ==> r@ == "cancelled"@,
    {
        match self {
            Self::Queued => "queued",
            Self::Running => "running",
            Self::Completed => "completed",
            Self::Failed => "failed",
            Self::Cancelled => "cancelled",
        }
    }

    /// Whether a job in this status can still change.
    pub open spec fn spec_is_terminal(self) -> bool {
        self is Completed || self is Failed || self is Cancelled
    }

    /// Whether the status is terminal.
    pub fn is_terminal(self) -> (r: bool)
        ensures
            r == self.spec_is_terminal(),
    {
        match self {
            Self::Completed | Self::Failed | Self::Cancelled => true,
            _ => false,
        }
    }
}

} // verus!
