//! The target directory: which paths are shown, and how much of each.

use crate::text::{last_char, strip_prefix};
use vstd::prelude::*;
use vstd::string::StringExecFns;

verus! {

/// The directory as it is configured from what the user gave: a separator is added at
/// the end where one is missing, and an empty string stays empty.
pub open spec fn normalized(raw: Seq<char>) -> Seq<char> {
    if raw.len() == 0 || raw.last() == '/' {
        raw
    } else {
        raw.push('/')
    }
}

/// Whether `target` restricts nothing: no directory was given, or the root.
pub open spec fn unrestricted(target: Seq<char>) -> bool {
    target.len() == 0 || target == seq!['/']
}

/// How `path` is shown under `target`: unchanged where `target` restricts nothing,
/// without the directory where it lies below `target`, and not at all elsewhere.
pub open spec fn displayed(target: Seq<char>, path: Seq<char>) -> Option<Seq<char>> {
    if unrestricted(target) {
        Some(path)
    } else if target.is_prefix_of(path) {
        Some(path.skip(target.len() as int))
    } else {
        None
    }
}

/// A configured target directory. It is empty or ends in a separator.
pub struct TargetDir {
    prefix: String,
}

impl View for TargetDir {
    type V = Seq<char>;

    closed spec fn view(&self) -> Seq<char> {
        self.prefix@
    }
}

impl TargetDir {
    #[verifier::type_invariant]
    spec fn ends_in_separator(self) -> bool {
        self.prefix@.len() == 0 || self.prefix@.last() == '/'
    }

    /// Configures the directory that the user gave; `""` stands for none.
    pub fn new(raw: &str) -> (dir: Self)
        ensures
            dir@ == normalized(raw@),
    {
        let mut prefix = raw.to_owned();
        match last_char(raw) {
            None => {},
            Some(c) => {
                if c != '/' {
                    proof {
                        reveal_strlit("/");
                    }
                    prefix.append("/");
                    assert(prefix@ =~= raw@.push('/'));
                }
            },
        }
        TargetDir { prefix }
    }

    /// The directory as text.
    pub fn as_str(&self) -> (s: &str)
        ensures
            s@ == self@,
            s@.len() == 0 || s@.last() == '/',
    {
        proof {
            use_type_invariant(self);
        }
        self.prefix.as_str()
    }

    /// Whether every path is shown, and shown whole.
    pub fn is_unrestricted(&self) -> (all: bool)
        ensures
            all == unrestricted(self@),
    {
        let prefix = self.prefix.as_str();
        let total = prefix.unicode_len();
        let all = total == 0 || (total == 1 && prefix.get_char(0) == '/');
        assert(all ==> (total == 0 || self@ =~= seq!['/']));
        all
    }

    /// How `path` is shown, if it is shown.
    pub fn display_path<'a>(&self, path: &'a str) -> (shown: Option<&'a str>)
        ensures
            match shown {
                Some(d) => displayed(self@, path@) == Some(d@),
                None => displayed(self@, path@) is None,
            },
    {
        if self.is_unrestricted() {
            Some(path)
        } else {
            strip_prefix(path, self.prefix.as_str())
        }
    }
}

/// A configured directory is empty exactly when none was given, ends in a separator
/// otherwise, and configuring it once more changes nothing.
pub proof fn lemma_normalized_ends_in_separator(raw: Seq<char>)
    ensures
        normalized(raw).len() == 0 <==> raw.len() == 0,
        normalized(raw).len() > 0 ==> normalized(raw).last() == '/',
        normalized(normalized(raw)) == normalized(raw),
{
}

/// The root restricts nothing: every path is shown, and shown whole.
pub proof fn lemma_root_restricts_nothing(path: Seq<char>)
    ensures
        normalized(seq!['/']) == seq!['/'],
        displayed(seq!['/'], path) == Some(path),
{
}

/// Under a directory that restricts, a path is shown exactly when it begins with the
/// directory, and what is shown is the rest of it.
pub proof fn lemma_displayed_below_target(
    target: Seq<char>,
    path: Seq<char>,
    display: Seq<char>,
)
    requires
        !unrestricted(target),
    ensures
        displayed(target, path) == Some(display) <==> path == target + display,
{
    if displayed(target, path) == Some(display) {
        assert(path =~= target + display);
    }
    if path == target + display {
        assert(target =~= path.subrange(0, target.len() as int));
        assert(path.skip(target.len() as int) =~= display);
    }
}

} // verus!
