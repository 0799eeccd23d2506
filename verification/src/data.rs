use vstd::prelude::*;
use crate::log::Log;
use crate::tag::{TagSys, TagView};

verus! {

/// Everything that outlives a run of the application.
pub struct SaveData {
    pub opened_once: bool,
    pub logs: Vec<Log>,
    pub past_logs: Vec<Log>,
    pub tags: TagSys,
    pub save_path: Option<String>,
}

/// Why data cannot be saved or loaded.
#[derive(Clone, Copy, Debug, PartialEq, Eq, Structural)]
pub enum SaveError {
    /// The data knows no place to save to.
    NoSavePath,
}

impl SaveError {
    /// The error in words.
    pub fn message(&self) -> (m: &'static str)
        ensures
            m == "no save path set.",
    {
        "no save path set."
    }
}

impl SaveData {
    /// Nothing is stored yet: no logs, no tags, never opened, and no place
    /// to save to.
    pub open spec fn is_blank(&self) -> bool {
        &&& !self.opened_once
        &&& self.logs@ == Seq::<Log>::empty()
        &&& self.past_logs@ == Seq::<Log>::empty()
        &&& self.tags@ == Seq::<TagView>::empty()
    }

    /// Blank data that is saved to `path`.
    pub fn new(path: String) -> (d: Self)
        ensures
            d.is_blank(),
            d.save_path == Some(path),
    {
        Self {
            opened_once: false,
            logs: Vec::new(),
            past_logs: Vec::new(),
            tags: TagSys::new(),
            save_path: Some(path),
        }
    }
}

impl SaveData {
    /// The place that the data is saved to and loaded from; an error
    /// where it has none.
    pub fn save_target(&self) -> (r: Result<&str, SaveError>)
        ensures
            match r {
                Ok(path) => self.save_path matches Some(p) && path@ == p@,
                Err(e) => self.save_path is None && e == SaveError::NoSavePath,
            },
    {
        match &self.save_path {
            Some(path) => Ok(path.as_str()),
            None => Err(SaveError::NoSavePath),
        }
    }
}

impl Default for SaveData {
    fn default() -> (d: Self)
        ensures
            d.is_blank(),
            d.save_path is None,
    {
        Self {
            opened_once: false,
            logs: Vec::new(),
            past_logs: Vec::new(),
            tags: TagSys::new(),
            save_path: None,
        }
    }
}

} // verus!
