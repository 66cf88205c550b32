//! Filesystem change records: the kind of change, the event a watcher backend
//! delivers, and the `PathOp` triple that the rest of the crate works on.

use vstd::prelude::*;

verus! {

/// A file or directory was created.
pub const CREATE: u8 = 0x01;

/// The contents of a file were written.
pub const WRITE: u8 = 0x02;

/// A file or directory was removed.
pub const REMOVE: u8 = 0x04;

/// A file or directory was renamed.
pub const RENAME: u8 = 0x08;

/// Permissions or ownership changed.
pub const CHMOD: u8 = 0x10;

/// The backend lost track and rescanned the tree.
pub const RESCAN: u8 = 0x20;

/// Nothing but metadata changed.
pub const META: u8 = 0x40;

/// The flags that mark a change as one of metadata.
pub const META_FLAGS: u8 = 0x50;

/// A set of change flags, one bit per flag.
#[derive(Clone, Copy, Debug, PartialEq, Eq, Hash, Structural)]
pub struct OpKind {
    pub bits: u8,
}

impl OpKind {
    /// Whether the set holds a flag that marks a change of metadata.
    pub open spec fn touches_meta(self) -> bool {
        self.bits & META_FLAGS != 0
    }

    /// Whether every flag of `flags` is in the set.
    pub open spec fn has_all(self, flags: u8) -> bool {
        self.bits & flags == flags
    }

    pub fn new(bits: u8) -> (r: OpKind)
        ensures
            r.bits == bits,
    {
        OpKind { bits }
    }

    pub fn contains(self, flags: u8) -> (r: bool)
        ensures
            r == self.has_all(flags),
    {
        self.bits & flags == flags
    }

    /// The set that holds the flags of both.
    pub fn union(self, other: OpKind) -> (r: OpKind)
        ensures
            r.bits == self.bits | other.bits,
    {
        OpKind { bits: self.bits | other.bits }
    }
}

/// Why a backend could not say what happened to a path.
#[derive(Clone, Debug, PartialEq, Eq, Hash)]
pub struct BackendError {
    pub message: String,
}

/// What a watcher backend delivers. `cookie` ties together the two events of a
/// rename.
#[derive(Debug, PartialEq, Eq, Hash)]
pub struct Event {
    pub path: Option<String>,
    pub op: Result<OpKind, BackendError>,
    pub cookie: Option<u32>,
}

/// An event as the contracts see it: the path by its characters, and the flags
/// only where the backend gave them.
pub struct EventView {
    pub path: Option<Seq<char>>,
    pub op: Option<OpKind>,
    pub cookie: Option<u32>,
}

impl View for Event {
    type V = EventView;

    open spec fn view(&self) -> EventView {
        EventView {
            path: match self.path {
                Some(p) => Some(p@),
                None => None,
            },
            op: match self.op {
                Ok(op) => Some(op),
                Err(_) => None,
            },
            cookie: self.cookie,
        }
    }
}

impl Clone for Event {
    fn clone(&self) -> (r: Event)
        ensures
            r@ == self@,
    {
        Event {
            path: match &self.path {
                Some(p) => Some(p.clone()),
                None => None,
            },
            op: match &self.op {
                Ok(op) => Ok(*op),
                Err(e) => Err(BackendError { message: e.message.clone() }),
            },
            cookie: self.cookie,
        }
    }
}

/// A change to one path: the unit that is debounced, deduplicated and handed
/// to a handler. Two of them are the same only if all three fields agree.
#[derive(Debug, PartialEq, Eq, Hash)]
pub struct PathOp {
    pub path: String,
    pub op: Option<OpKind>,
    pub cookie: Option<u32>,
}

/// A path operation as the contracts see it: the path by its characters.
pub struct PathOpView {
    pub path: Seq<char>,
    pub op: Option<OpKind>,
    pub cookie: Option<u32>,
}

impl View for PathOp {
    type V = PathOpView;

    open spec fn view(&self) -> PathOpView {
        PathOpView { path: self.path@, op: self.op, cookie: self.cookie }
    }
}

impl PathOpView {
    /// Whether the change is one of metadata.
    pub open spec fn is_meta(self) -> bool {
        match self.op {
            Some(op) => op.touches_meta(),
            None => false,
        }
    }
}

/// The views of a sequence of path operations, in the same order.
pub open spec fn views(ops: Seq<PathOp>) -> Seq<PathOpView> {
    ops.map_values(|p: PathOp| p@)
}

impl PathOp {
    pub fn new(path: &str, op: Option<OpKind>, cookie: Option<u32>) -> (r: PathOp)
        ensures
            r@ == (PathOpView { path: path@, op, cookie }),
    {
        PathOp { path: path.to_owned(), op, cookie }
    }

    /// Whether `op` marks a change of metadata.
    pub fn is_meta(op: OpKind) -> (r: bool)
        ensures
            r == op.touches_meta(),
    {
        op.bits & META_FLAGS != 0
    }

    /// Whether two path operations agree in path, flags and cookie.
    pub fn same(&self, other: &PathOp) -> (r: bool)
        ensures
            r == (self@ == other@),
    {
        let paths = self.path == other.path;
        let ops = match (self.op, other.op) {
            (Some(a), Some(b)) => a.bits == b.bits,
            (None, None) => true,
            _ => false,
        };
        let cookies = match (self.cookie, other.cookie) {
            (Some(a), Some(b)) => a == b,
            (None, None) => true,
            _ => false,
        };
        paths && ops && cookies
    }
}

impl Clone for PathOp {
    fn clone(&self) -> (r: PathOp)
        ensures
            r@ == self@,
    {
        PathOp { path: self.path.clone(), op: self.op, cookie: self.cookie }
    }
}

} // verus!
