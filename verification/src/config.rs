//! What a run is set up with: the file to read and the status labels.

use crate::error::{OrgError, OrgErrorView};
use crate::status_labels::{default_labels, StatusLabels};
use vstd::prelude::*;

verus! {

/// The settings of a run.
pub struct Config {
    pub file_path: String,
    pub status_labels: StatusLabels,
}

/// Collects the settings of a run one by one.
pub struct Builder {
    file_path: Option<String>,
    status_labels: Option<StatusLabels>,
}

impl Builder {
    /// The path that was given, if any.
    pub closed spec fn path(&self) -> Option<Seq<char>> {
        match self.file_path {
            Some(path) => Some(path@),
            None => None,
        }
    }

    /// The labels that were given, if any.
    pub closed spec fn labels(&self) -> Option<Seq<char>> {
        match self.status_labels {
            Some(labels) => Some(labels@),
            None => None,
        }
    }

    /// A builder to which nothing was given yet.
    pub fn new() -> (r: Self)
        ensures
            r.path() is None,
            r.labels() is None,
    {
        Builder { file_path: None, status_labels: None }
    }

    /// The settings: the path that was given, and the labels that were
    /// given or else the default ones. Without a path there are no settings.
    pub fn build(self) -> (r: Result<Config, OrgError>)
        ensures
            match r {
                Ok(config) => self.path() == Some(config.file_path@) && config.status_labels@
                    == (match self.labels() {
                    Some(labels) => labels,
                    None => default_labels(),
                }),
                Err(e) => self.path() is None && e@ == OrgErrorView::Unexpected(
                    "did not receive file path"@,
                ),
            },
    {
        let file_path = match self.file_path {
            Some(path) => path,
            None => {
                return Err(OrgError::unexpected("did not receive file path"));
            },
        };
        let status_labels = match self.status_labels {
            Some(labels) => labels,
            None => StatusLabels::default(),
        };
        Ok(Config { file_path, status_labels })
    }

    /// The builder with `path` as the path, in place of any given before.
    pub fn file_path(self, path: String) -> (r: Self)
        ensures
            r.path() == Some(path@),
            r.labels() == self.labels(),
    {
        Builder { file_path: Some(path), status_labels: self.status_labels }
    }

    /// The builder with `labels` as the labels, in place of any given before.
    pub fn status_labels(self, labels: StatusLabels) -> (r: Self)
        ensures
            r.labels() == Some(labels@),
            r.path() == self.path(),
    {
        Builder { file_path: self.file_path, status_labels: Some(labels) }
    }
}

} // verus!
