//! Paths as strings: joining, the reserved staging suffix, and the guard
//! that removes a staged file.

use vstd::prelude::*;
use vstd::string::*;
use crate::requests::{FsRequest, FsRequestView};

verus! {

/// The suffix of every staging name. A file with such a name is never a
/// logical file of the tree.
pub const TEMP_SUFFIX: &'static str = ".imprint_tmp";

/// `TEMP_SUFFIX`, as characters.
pub open spec fn temp_suffix() -> Seq<char> {
    seq!['.', 'i', 'm', 'p', 'r', 'i', 'n', 't', '_', 't', 'm', 'p']
}

/// `s` ends with `suffix`.
pub open spec fn has_suffix(s: Seq<char>, suffix: Seq<char>) -> bool {
    suffix.len() <= s.len() && s.subrange(s.len() - suffix.len(), s.len() as int) == suffix
}

/// The path is a staging name.
pub open spec fn is_temp(path: Seq<char>) -> bool {
    has_suffix(path, temp_suffix())
}

/// The staging name that belongs to `path`.
pub open spec fn temp_of(path: Seq<char>) -> Seq<char> {
    path + temp_suffix()
}

/// `base` extended by the relative component `name`: a separator comes
/// between them unless `base` is empty or already ends with one.
pub open spec fn joined(base: Seq<char>, name: Seq<char>) -> Seq<char> {
    if base.len() == 0 || base.last() == '/' {
        base + name
    } else {
        base + seq!['/'] + name
    }
}

/// `str::ends_with` with a string as the pattern: whether the pattern is a
/// suffix of the string.
#[verifier::external_body]
fn str_ends_with(s: &str, suffix: &str) -> (yes: bool)
    ensures
        yes == has_suffix(s@, suffix@),
{
    s.ends_with(suffix)
}

/// The staging suffix, character by character.
pub proof fn lemma_temp_suffix()
    ensures
        TEMP_SUFFIX@ == temp_suffix(),
{
    reveal_strlit(".imprint_tmp");
    assert(TEMP_SUFFIX@ =~= temp_suffix());
}

/// The staging name of a path is a staging name, and differs from the
/// path.
pub proof fn lemma_temp_of_is_temp(path: Seq<char>)
    ensures
        is_temp(temp_of(path)),
        temp_of(path) != path,
{
    let t = temp_of(path);
    assert(t.subrange(t.len() - temp_suffix().len(), t.len() as int) =~= temp_suffix());
    assert(t.len() == path.len() + 12);
}

/// Whether `path` is a staging name.
pub fn is_temp_file(path: &str) -> (yes: bool)
    ensures
        yes == is_temp(path@),
{
    proof {
        lemma_temp_suffix();
    }
    str_ends_with(path, TEMP_SUFFIX)
}

/// The staging name that belongs to `path`: the path with `TEMP_SUFFIX`
/// appended.
pub fn temp_path(path: &str) -> (temp: String)
    ensures
        temp@ == temp_of(path@),
{
    proof {
        lemma_temp_suffix();
    }
    path.to_owned().concat(TEMP_SUFFIX)
}

/// `base` extended by the relative component `name`.
pub fn join(base: &str, name: &str) -> (path: String)
    ensures
        path@ == joined(base@, name@),
{
    proof {
        reveal_strlit("/");
    }
    if base.is_empty() || str_ends_with(base, "/") {
        assert(base@.len() > 0 ==> (has_suffix(base@, "/"@) <==> base@.last() == '/')) by {
            if base@.len() > 0 {
                let tail = base@.subrange(base@.len() - 1, base@.len() as int);
                assert(tail.len() == 1 && tail[0] == base@.last());
                if tail == "/"@ {
                    assert("/"@[0] == '/');
                }
                if base@.last() == '/' {
                    assert(tail =~= "/"@);
                }
            }
        }
        base.to_owned().concat(name)
    } else {
        assert(base@.last() != '/') by {
            let tail = base@.subrange(base@.len() - 1, base@.len() as int);
            if base@.last() == '/' {
                assert(tail =~= "/"@);
            }
        }
        assert("/"@ =~= seq!['/']);
        base.to_owned().concat("/").concat(name)
    }
}

/// The guard of a staged file: while it is armed, leaving the protocol
/// removes the file.
#[derive(Debug)]
pub struct TempCleanup {
    pub path: String,
    pub armed: bool,
}

/// The mathematical twin of [`TempCleanup`].
pub struct TempCleanupView {
    pub path: Seq<char>,
    pub armed: bool,
}

impl View for TempCleanup {
    type V = TempCleanupView;

    open spec fn view(&self) -> TempCleanupView {
        TempCleanupView { path: self.path@, armed: self.armed }
    }
}

/// What a guard asks for when the protocol is left: whether the staged file
/// is still there, if the guard is armed; nothing, if there is no guard or
/// it is disarmed.
pub open spec fn release_request(guard: Option<TempCleanupView>) -> Option<FsRequestView> {
    match guard {
        Some(g) => if g.armed {
            Some(FsRequestView::Exists { path: g.path })
        } else {
            None
        },
        None => None,
    }
}

/// The guard, disarmed.
pub open spec fn disarmed(guard: Option<TempCleanupView>) -> Option<TempCleanupView> {
    match guard {
        Some(g) => Some(TempCleanupView { armed: false, ..g }),
        None => None,
    }
}

impl TempCleanup {
    /// An armed guard of the staged file `path`.
    pub fn new(path: String) -> (guard: Self)
        ensures
            guard@ == (TempCleanupView { path: path@, armed: true }),
    {
        Self { path, armed: true }
    }

    /// Disarms the guard: the file has reached its final name.
    pub fn disarm(&mut self)
        ensures
            final(self)@ == (TempCleanupView { path: old(self)@.path, armed: false }),
    {
        self.armed = false;
    }

    /// What leaving the protocol asks for first.
    pub fn release(&self) -> (request: Option<FsRequest>)
        ensures
            match request {
                Some(asked) => release_request(Some(self@)) == Some(asked@),
                None => release_request(Some(self@)).is_none(),
            },
    {
        if self.armed {
            Some(FsRequest::Exists { path: self.path.clone() })
        } else {
            None
        }
    }
}

} // verus!
