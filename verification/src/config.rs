//! What the program is configured with.

use vstd::prelude::*;

verus! {

/// A place on a disk: a plain path, or a path on a removable volume that is
/// known by its label.
#[derive(Debug)]
pub enum Location {
    File { path: String },
    Usb { label: String, path: String },
}

impl Clone for Location {
    fn clone(&self) -> (r: Location)
        ensures
            r == *self,
    {
        match self {
            Location::File { path } => Location::File { path: path.clone() },
            Location::Usb { label, path } => Location::Usb {
                label: label.clone(),
                path: path.clone(),
            },
        }
    }
}

impl PartialEq for Location {
    fn eq(&self, other: &Location) -> (r: bool) {
        match (self, other) {
            (Location::File { path: a }, Location::File { path: b }) => *a == *b,
            (Location::Usb { label: la, path: a }, Location::Usb { label: lb, path: b }) => *la
                == *lb && *a == *b,
            _ => false,
        }
    }
}

impl Eq for Location {}

impl vstd::std_specs::cmp::PartialEqSpecImpl for Location {
    open spec fn obeys_eq_spec() -> bool {
        true
    }

    open spec fn eq_spec(&self, other: &Location) -> bool {
        same_location(*self, *other)
    }
}

/// Two locations of the same kind with the same texts.
pub open spec fn same_location(a: Location, b: Location) -> bool {
    match (a, b) {
        (Location::File { path: p }, Location::File { path: q }) => p@ == q@,
        (Location::Usb { label: l, path: p }, Location::Usb { label: m, path: q }) => l@ == m@
            && p@ == q@,
        _ => false,
    }
}

/// Where the catalog is kept.
#[derive(Debug)]
pub enum Database {
    InMemory,
    OnDisk { location: Location },
}

impl PartialEq for Database {
    fn eq(&self, other: &Database) -> (r: bool) {
        match (self, other) {
            (Database::InMemory, Database::InMemory) => true,
            (Database::OnDisk { location: a }, Database::OnDisk { location: b }) => *a == *b,
            _ => false,
        }
    }
}

impl Eq for Database {}

impl vstd::std_specs::cmp::PartialEqSpecImpl for Database {
    open spec fn obeys_eq_spec() -> bool {
        true
    }

    open spec fn eq_spec(&self, other: &Database) -> bool {
        match (*self, *other) {
            (Database::InMemory, Database::InMemory) => true,
            (Database::OnDisk { location: a }, Database::OnDisk { location: b }) => same_location(
                a,
                b,
            ),
            _ => false,
        }
    }
}

/// The directory trees that hold the music.
#[derive(Debug)]
pub struct LibrarySource {
    pub roots: Vec<Location>,
    pub follow_symlinks: bool,
    /// Subtrees that a scan leaves out.
    pub ignored_dirs: Vec<String>,
}

impl Clone for LibrarySource {
    fn clone(&self) -> (r: LibrarySource)
        ensures
            r.roots@ == self.roots@,
            r.follow_symlinks == self.follow_symlinks,
            r.ignored_dirs@ == self.ignored_dirs@,
    {
        let mut roots: Vec<Location> = Vec::new();
        let mut i: usize = 0;
        while i < self.roots.len()
            invariant
                i <= self.roots.len(),
                roots@ == self.roots@.take(i as int),
            decreases self.roots.len() - i,
        {
            roots.push(self.roots[i].clone());
            assert(roots@ =~= self.roots@.take(i + 1));
            i += 1;
        }
        assert(self.roots@.take(self.roots@.len() as int) =~= self.roots@);
        let mut ignored_dirs: Vec<String> = Vec::new();
        let mut j: usize = 0;
        while j < self.ignored_dirs.len()
            invariant
                j <= self.ignored_dirs.len(),
                ignored_dirs@ == self.ignored_dirs@.take(j as int),
            decreases self.ignored_dirs.len() - j,
        {
            ignored_dirs.push(self.ignored_dirs[j].clone());
            assert(ignored_dirs@ =~= self.ignored_dirs@.take(j + 1));
            j += 1;
        }
        assert(self.ignored_dirs@.take(self.ignored_dirs@.len() as int) =~= self.ignored_dirs@);
        LibrarySource { roots, follow_symlinks: self.follow_symlinks, ignored_dirs }
    }
}

impl Default for LibrarySource {
    fn default() -> (r: LibrarySource)
        ensures
            r.roots@.len() == 0,
            !r.follow_symlinks,
            r.ignored_dirs@.len() == 0,
    {
        LibrarySource { roots: Vec::new(), follow_symlinks: false, ignored_dirs: Vec::new() }
    }
}

/// Address and port the HTTP server listens on.
#[derive(Debug)]
pub struct HttpConfig {
    pub bind_addr: String,
    pub port: u16,
}

impl Clone for HttpConfig {
    fn clone(&self) -> (r: HttpConfig)
        ensures
            r == *self,
    {
        HttpConfig { bind_addr: self.bind_addr.clone(), port: self.port }
    }
}

/// The address under which the server is reached from outside; it goes
/// into printed codes and tags.
#[derive(Debug)]
pub struct PublicEndpoint {
    /// For example `http://main-deck:8080`.
    pub base_url: String,
}

/// The program's own data directory: artwork, database and the like.
#[derive(Debug)]
pub struct Data {
    root_dir: Location,
    /// Relative to `root_dir`.
    artwork_dir: String,
}

impl Data {
    pub fn new(root_dir: Location, artwork_dir: String) -> (d: Data)
        ensures
            d.spec_root_dir() == root_dir,
            d.spec_artwork_dir() == artwork_dir,
    {
        Data { root_dir, artwork_dir }
    }

    pub closed spec fn spec_root_dir(&self) -> Location {
        self.root_dir
    }

    pub closed spec fn spec_artwork_dir(&self) -> String {
        self.artwork_dir
    }

    pub fn root_dir(&self) -> (r: &Location)
        ensures
            *r == self.spec_root_dir(),
    {
        &self.root_dir
    }

    pub fn artwork_dir(&self) -> (r: &String)
        ensures
            *r == self.spec_artwork_dir(),
    {
        &self.artwork_dir
    }
}

/// The whole configuration.
#[derive(Debug)]
pub struct Config {
    pub version: u32,
    pub database: Database,
    pub library_source: LibrarySource,
    pub http: HttpConfig,
    pub public_endpoint: PublicEndpoint,
    pub data: Data,
}

} // verus!
