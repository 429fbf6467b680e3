//! Application records: the catalog's entries.

use crate::app_string::{same_identity, AppString};
use vstd::prelude::*;

verus! {

pub type AppName = AppString;

/// One installed, launchable application.
#[derive(Debug, Clone)]
pub struct App {
    pub name: AppName,
    /// Filesystem path: the record's primary key.
    pub path: String,
    pub is_running: bool,
    /// Icon image bytes, where one could be read.
    pub icon: Option<Vec<u8>>,
}

/// What a record holds, as plain values.
pub struct AppView {
    pub name: Seq<char>,
    pub path: Seq<char>,
    pub is_running: bool,
    pub icon: Option<Seq<u8>>,
}

impl View for App {
    type V = AppView;

    open spec fn view(&self) -> AppView {
        AppView {
            name: self.name@,
            path: self.path@,
            is_running: self.is_running,
            icon: match self.icon {
                Some(b) => Some(b@),
                None => None,
            },
        }
    }
}

/// Full-record equality: the same identity (names equal ignoring case), path,
/// running state and icon.
pub open spec fn same_app_record(a: AppView, b: AppView) -> bool {
    same_identity(a.name, b.name) && a.path == b.path && a.is_running == b.is_running && a.icon
        == b.icon
}

/// The records of a list of applications.
pub open spec fn app_views(apps: Seq<App>) -> Seq<AppView> {
    apps.map_values(|a: App| a@)
}

/// The names of a list of applications.
pub open spec fn app_names(apps: Seq<App>) -> Seq<Seq<char>> {
    apps.map_values(|a: App| a.name@)
}

fn copy_bytes(b: &Vec<u8>) -> (r: Vec<u8>)
    ensures
        r@ == b@,
{
    let mut r: Vec<u8> = Vec::new();
    for i in 0..b.len()
        invariant
            r@ == b@.take(i as int),
    {
        r.push(b[i]);
        assert(r@ =~= b@.take(i + 1));
    }
    assert(b@.take(b.len() as int) =~= b@);
    r
}

fn bytes_equal(a: &Vec<u8>, b: &Vec<u8>) -> (r: bool)
    ensures
        r == (a@ == b@),
{
    if a.len() != b.len() {
        return false;
    }
    for i in 0..a.len()
        invariant
            a.len() == b.len(),
            forall|k: int| 0 <= k < i ==> a@[k] == b@[k],
    {
        if a[i] != b[i] {
            return false;
        }
    }
    assert(a@ =~= b@);
    true
}

impl App {
    pub fn new(name: AppName, path: String, is_running: bool, icon: Option<Vec<u8>>) -> (r: App)
        ensures
            r.name == name,
            r.path == path,
            r.is_running == is_running,
            r.icon == icon,
    {
        App { name, path, is_running, icon }
    }

    /// A copy of the record.
    pub fn duplicate(&self) -> (r: App)
        ensures
            r@ == self@,
    {
        let icon = match &self.icon {
            Some(b) => Some(copy_bytes(b)),
            None => None,
        };
        App { name: self.name.duplicate(), path: self.path.clone(), is_running: self.is_running, icon }
    }

    /// Full-record equality: every field matches, the name ignoring case.
    pub fn same_record(&self, other: &App) -> (r: bool)
        ensures
            r == same_app_record(self@, other@),
    {
        if !self.name.eq_ignore_case(&other.name) || self.path != other.path
            || self.is_running != other.is_running {
            return false;
        }
        match (&self.icon, &other.icon) {
            (Some(a), Some(b)) => bytes_equal(a, b),
            (None, None) => true,
            _ => false,
        }
    }
}

} // verus!
