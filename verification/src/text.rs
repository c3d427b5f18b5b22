//! Character-level string primitives: whitespace, trimming, searching and prefixes.

use vstd::prelude::*;
use vstd::std_specs::iter::IteratorSpec;

verus! {

/// Whether `c` carries the Unicode `White_Space` property.
pub open spec fn is_whitespace(c: char) -> bool {
    let n = c as u32;
    ||| 0x09 <= n <= 0x0D
    ||| n == 0x20
    ||| n == 0x85
    ||| n == 0xA0
    ||| n == 0x1680
    ||| 0x2000 <= n <= 0x200A
    ||| n == 0x2028
    ||| n == 0x2029
    ||| n == 0x202F
    ||| n == 0x205F
    ||| n == 0x3000
}

/// Decides [`is_whitespace`] for one character.
pub fn char_is_whitespace(c: char) -> (b: bool)
    ensures
        b == is_whitespace(c),
{
    let n: u32 = c as u32;
    (0x09 <= n && n <= 0x0D) || n == 0x20 || n == 0x85 || n == 0xA0 || n == 0x1680 || (0x2000 <= n
        && n <= 0x200A) || n == 0x2028 || n == 0x2029 || n == 0x202F || n == 0x205F || n == 0x3000
}

/// `s` without its leading whitespace.
pub open spec fn trim_start(s: Seq<char>) -> Seq<char>
    decreases s.len(),
{
    if s.len() > 0 && is_whitespace(s.first()) {
        trim_start(s.drop_first())
    } else {
        s
    }
}

/// `s` without its trailing whitespace.
pub open spec fn trim_end(s: Seq<char>) -> Seq<char>
    decreases s.len(),
{
    if s.len() > 0 && is_whitespace(s.last()) {
        trim_end(s.drop_last())
    } else {
        s
    }
}

/// `s` without its leading and trailing whitespace.
pub open spec fn trimmed(s: Seq<char>) -> Seq<char> {
    trim_end(trim_start(s))
}

/// The slice of `s` that is left once leading and trailing whitespace is removed.
pub fn trim(s: &str) -> (t: &str)
    ensures
        t@ == trimmed(s@),
{
    let total = s.unicode_len();
    let mut i: usize = 0;
    let mut start: usize = 0;
    let mut end: usize = 0;
    for c in it: s.chars()
        invariant
            i == it.index(),
            it.seq() == s@,
            total == s@.len(),
            start <= end <= i,
            forall|k: int| 0 <= k < start ==> is_whitespace(#[trigger] s@[k]),
            forall|k: int| end <= k < i ==> is_whitespace(#[trigger] s@[k]),
            start < end ==> !is_whitespace(s@[start as int]) && !is_whitespace(s@[end - 1]),
            start == end ==> start == i,
    {
        if !char_is_whitespace(c) {
            if start == end {
                start = i;
            }
            end = i + 1;
        } else if start == end {
            start = i + 1;
            end = i + 1;
        }
        i += 1;
    }
    proof {
        lemma_trim_start_at(s@, start as int);
        let tail = s@.skip(start as int);
        assert forall|k: int| end - start <= k < tail.len() implies is_whitespace(
            #[trigger] tail[k],
        ) by {
            assert(tail[k] == s@[k + start]);
        }
        lemma_trim_end_at(tail, end - start);
        assert(tail.take(end - start) =~= s@.subrange(start as int, end as int));
    }
    s.substring_char(start, end)
}

/// The position of the first `c` in `s`, if `s` holds one.
pub open spec fn first_index_of(s: Seq<char>, c: char) -> Option<int>
    decreases s.len(),
{
    if s.len() == 0 {
        None
    } else if s.first() == c {
        Some(0)
    } else {
        match first_index_of(s.drop_first(), c) {
            Some(i) => Some(i + 1),
            None => None,
        }
    }
}

/// The character position of the first `c` in `s`.
pub fn find_char(s: &str, c: char) -> (found: Option<usize>)
    ensures
        match found {
            Some(i) => first_index_of(s@, c) == Some(i as int),
            None => first_index_of(s@, c) is None,
        },
{
    let total = s.unicode_len();
    let mut i: usize = 0;
    let mut found: Option<usize> = None;
    for x in it: s.chars()
        invariant
            i == it.index(),
            it.seq() == s@,
            total == s@.len(),
            match found {
                Some(p) => p < i && s@[p as int] == c && forall|k: int|
                    0 <= k < p ==> #[trigger] s@[k] != c,
                None => forall|k: int| 0 <= k < i ==> #[trigger] s@[k] != c,
            },
    {
        if found.is_none() && x == c {
            found = Some(i);
        }
        i += 1;
    }
    proof {
        lemma_first_index_of(s@, c);
    }
    found
}

/// The last character of `s`.
pub fn last_char(s: &str) -> (last: Option<char>)
    ensures
        match last {
            Some(c) => s@.len() > 0 && c == s@.last(),
            None => s@.len() == 0,
        },
{
    let mut last: Option<char> = None;
    for c in it: s.chars()
        invariant
            it.seq() == s@,
            match last {
                Some(x) => it.index() > 0 && x == s@[it.index() - 1],
                None => it.index() == 0,
            },
    {
        last = Some(c);
    }
    last
}

/// What follows `prefix` in `s`, if `s` begins with `prefix`.
pub fn strip_prefix<'a>(s: &'a str, prefix: &str) -> (rest: Option<&'a str>)
    ensures
        match rest {
            Some(r) => prefix@.is_prefix_of(s@) && r@ == s@.skip(prefix@.len() as int),
            None => !prefix@.is_prefix_of(s@),
        },
{
    let total = s.unicode_len();
    let mut chars = s.chars();
    let mut i: usize = 0;
    let mut matching = true;
    for p in it: prefix.chars()
        invariant
            it.seq() == prefix@,
            total == s@.len(),
            matching ==> i == it.index() && i <= total && chars.remaining() == s@.skip(i as int)
                && s@.take(i as int) == prefix@.take(i as int),
            !matching ==> !prefix@.is_prefix_of(s@),
    {
        if matching {
            match chars.next() {
                Some(c) => {
                    if c == p {
                        i += 1;
                    } else {
                        matching = false;
                    }
                },
                None => {
                    matching = false;
                },
            }
        }
    }
    if matching {
        Some(s.substring_char(i, total))
    } else {
        None
    }
}

/// Skipping a run of leading whitespace that ends at `i` is what [`trim_start`] does.
pub proof fn lemma_trim_start_at(s: Seq<char>, i: int)
    requires
        0 <= i <= s.len(),
        forall|k: int| 0 <= k < i ==> is_whitespace(#[trigger] s[k]),
        i < s.len() ==> !is_whitespace(s[i]),
    ensures
        trim_start(s) == s.skip(i),
    decreases i,
{
    if i == 0 {
        assert(s.skip(0) =~= s);
    } else {
        let rest = s.drop_first();
        assert forall|k: int| 0 <= k < i - 1 implies is_whitespace(#[trigger] rest[k]) by {
            assert(rest[k] == s[k + 1]);
        }
        lemma_trim_start_at(rest, i - 1);
        assert(rest.skip(i - 1) =~= s.skip(i));
    }
}

/// Dropping a run of trailing whitespace that begins at `j` is what [`trim_end`] does.
pub proof fn lemma_trim_end_at(s: Seq<char>, j: int)
    requires
        0 <= j <= s.len(),
        forall|k: int| j <= k < s.len() ==> is_whitespace(#[trigger] s[k]),
        0 < j ==> !is_whitespace(s[j - 1]),
    ensures
        trim_end(s) == s.take(j),
    decreases s.len() - j,
{
    if j == s.len() {
        assert(s.take(j) =~= s);
    } else {
        let rest = s.drop_last();
        lemma_trim_end_at(rest, j);
        assert(rest.take(j) =~= s.take(j));
    }
}

/// Where the leading whitespace of `s` ends.
proof fn lemma_trim_start_bound(s: Seq<char>) -> (i: int)
    ensures
        0 <= i <= s.len(),
        trim_start(s) == s.skip(i),
        forall|k: int| 0 <= k < i ==> is_whitespace(#[trigger] s[k]),
        i < s.len() ==> !is_whitespace(s[i]),
    decreases s.len(),
{
    if s.len() > 0 && is_whitespace(s.first()) {
        let rest = s.drop_first();
        let j = lemma_trim_start_bound(rest);
        assert(rest.skip(j) =~= s.skip(j + 1));
        assert forall|k: int| 0 <= k < j + 1 implies is_whitespace(#[trigger] s[k]) by {
            if k > 0 {
                assert(s[k] == rest[k - 1]);
            }
        }
        assert(j + 1 < s.len() ==> s[j + 1] == rest[j]);
        j + 1
    } else {
        assert(s.skip(0) =~= s);
        0
    }
}

/// Where the trailing whitespace of `s` begins.
proof fn lemma_trim_end_bound(s: Seq<char>) -> (j: int)
    ensures
        0 <= j <= s.len(),
        trim_end(s) == s.take(j),
        forall|k: int| j <= k < s.len() ==> is_whitespace(#[trigger] s[k]),
        0 < j ==> !is_whitespace(s[j - 1]),
    decreases s.len(),
{
    if s.len() > 0 && is_whitespace(s.last()) {
        let rest = s.drop_last();
        let j = lemma_trim_end_bound(rest);
        assert(rest.take(j) =~= s.take(j));
        assert(0 < j ==> s[j - 1] == rest[j - 1]);
        assert forall|k: int| j <= k < s.len() implies is_whitespace(#[trigger] s[k]) by {
            if k < rest.len() {
                assert(s[k] == rest[k]);
            }
        }
        j
    } else {
        assert(s.take(s.len() as int) =~= s);
        s.len() as int
    }
}

/// Trimming cuts `s` down to the part between its first and its last character that is
/// not whitespace: `trimmed(s)` is `s` from `bounds.0` up to `bounds.1`, all that lies
/// outside is whitespace, and what is left neither begins nor ends with whitespace.
pub proof fn lemma_trimmed_is_the_core(s: Seq<char>) -> (bounds: (int, int))
    ensures
        0 <= bounds.0 <= bounds.1 <= s.len(),
        trimmed(s) == s.subrange(bounds.0, bounds.1),
        forall|k: int| 0 <= k < bounds.0 ==> is_whitespace(#[trigger] s[k]),
        forall|k: int| bounds.1 <= k < s.len() ==> is_whitespace(#[trigger] s[k]),
        bounds.0 < bounds.1 ==> !is_whitespace(s[bounds.0]) && !is_whitespace(s[bounds.1 - 1]),
{
    let i = lemma_trim_start_bound(s);
    let tail = s.skip(i);
    let j = lemma_trim_end_bound(tail);
    assert(tail.take(j) =~= s.subrange(i, i + j));
    assert forall|k: int| i + j <= k < s.len() implies is_whitespace(#[trigger] s[k]) by {
        assert(s[k] == tail[k - i]);
    }
    if 0 < j {
        assert(tail[j - 1] == s[i + j - 1]);
    }
    (i, i + j)
}

/// Text that neither begins nor ends with whitespace is left as it is.
pub proof fn lemma_trimmed_keeps_clean_text(s: Seq<char>)
    requires
        s.len() > 0 ==> !is_whitespace(s.first()) && !is_whitespace(s.last()),
    ensures
        trimmed(s) == s,
{
    lemma_trim_start_at(s, 0);
    assert(s.skip(0) =~= s);
    lemma_trim_end_at(s, s.len() as int);
    assert(s.take(s.len() as int) =~= s);
}

/// [`first_index_of`] is `Some(i)` exactly when `s[i]` is `c` and nothing before it is.
pub proof fn lemma_first_index_of(s: Seq<char>, c: char)
    ensures
        match first_index_of(s, c) {
            Some(i) => 0 <= i < s.len() && s[i] == c && forall|k: int|
                0 <= k < i ==> #[trigger] s[k] != c,
            None => forall|k: int| 0 <= k < s.len() ==> #[trigger] s[k] != c,
        },
    decreases s.len(),
{
    if s.len() > 0 && s.first() != c {
        let rest = s.drop_first();
        lemma_first_index_of(rest, c);
        match first_index_of(rest, c) {
            Some(i) => {
                assert forall|k: int| 0 <= k < i + 1 implies #[trigger] s[k] != c by {
                    if k > 0 {
                        assert(rest[k - 1] == s[k]);
                    }
                }
            },
            None => {
                assert forall|k: int| 0 <= k < s.len() implies #[trigger] s[k] != c by {
                    if k > 0 {
                        assert(rest[k - 1] == s[k]);
                    }
                }
            },
        }
    }
}

} // verus!
