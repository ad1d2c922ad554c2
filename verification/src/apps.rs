//! How applications are named: the key under which a path is filed, and the
//! short name that the user sees.

use vstd::prelude::*;
use vstd::string::*;

use crate::text;

verus! {

/// What `str::to_lowercase` makes of a text.
pub uninterp spec fn lowercase(s: Seq<char>) -> Seq<char>;

/// Whether a character has Unicode's `White_Space` property.
pub open spec fn whitespace(c: char) -> bool {
    let n = c as int;
    ||| 0x09 <= n <= 0x0d
    ||| n == 0x20
    ||| n == 0x85
    ||| n == 0xa0
    ||| n == 0x1680
    ||| 0x2000 <= n <= 0x200a
    ||| n == 0x2028
    ||| n == 0x2029
    ||| n == 0x202f
    ||| n == 0x205f
    ||| n == 0x3000
}

/// `str::to_lowercase`: the lower-case equivalent of the text by Unicode's rules,
/// which depends on the text alone. Which characters it holds is not stated.
#[verifier::external_body]
pub(crate) fn to_lowercase(s: &str) -> (r: String)
    ensures
        r@ == lowercase(s@),
{
    s.to_lowercase()
}

/// `char::is_whitespace`: whether the character has Unicode's `White_Space`
/// property, that is, whether it is one of the code points listed above.
#[verifier::external_body]
fn is_whitespace(c: char) -> (r: bool)
    ensures
        r == whitespace(c),
{
    c.is_whitespace()
}

/// The text without leading whitespace.
pub open spec fn trimmed_start(s: Seq<char>) -> Seq<char>
    decreases s.len(),
{
    if s.len() > 0 && whitespace(s[0]) {
        trimmed_start(s.drop_first())
    } else {
        s
    }
}

/// The text without trailing whitespace.
pub open spec fn trimmed_end(s: Seq<char>) -> Seq<char>
    decreases s.len(),
{
    if s.len() > 0 && whitespace(s.last()) {
        trimmed_end(s.drop_last())
    } else {
        s
    }
}

/// The text without surrounding whitespace.
pub open spec fn trimmed(s: Seq<char>) -> Seq<char> {
    trimmed_end(trimmed_start(s))
}

/// The key of an application: its path, trimmed, in lower case.
pub open spec fn key_of(path: Seq<char>) -> Seq<char> {
    lowercase(trimmed(path))
}

/// The text without surrounding whitespace.
pub fn trim(s: &str) -> (r: String)
    ensures
        r@ == trimmed(s@),
{
    let v: Vec<char> = text::chars_of(s);
    let mut from: usize = 0;
    let mut going: bool = true;
    proof {
        assert(v@.skip(0) =~= s@);
    }
    while going && from < v.len()
        invariant
            from <= v@.len(),
            trimmed_start(s@) == trimmed_start(v@.skip(from as int)),
            !going ==> from < v@.len() && !whitespace(v@[from as int]),
        decreases v@.len() - from, if going { 1int } else { 0int },
    {
        if is_whitespace(v[from]) {
            proof {
                assert(v@.skip(from as int).drop_first() =~= v@.skip(from + 1));
            }
            from = from + 1;
        } else {
            going = false;
        }
    }
    let mut to: usize = v.len();
    proof {
        assert(v@.subrange(from as int, to as int) =~= v@.skip(from as int));
        assert(trimmed_start(s@) == v@.subrange(from as int, to as int));
    }
    going = true;
    while going && to > from
        invariant
            from <= to <= v@.len(),
            trimmed(s@) == trimmed_end(v@.subrange(from as int, to as int)),
            !going ==> to > from && !whitespace(v@[to - 1]),
        decreases to, if going { 1int } else { 0int },
    {
        if is_whitespace(v[to - 1]) {
            proof {
                assert(v@.subrange(from as int, to as int).drop_last() =~= v@.subrange(
                    from as int,
                    to - 1,
                ));
            }
            to = to - 1;
        } else {
            going = false;
        }
    }
    text::text_between(&v, from, to)
}

/// Whether there is nothing but whitespace in the text.
pub fn is_blank(s: &str) -> (r: bool)
    ensures
        r == (trimmed(s@).len() == 0),
{
    let t: String = trim(s);
    t.as_str().is_empty()
}

/// The key of an application.
pub fn app_key(path: &str) -> (r: String)
    ensures
        r@ == key_of(path@),
{
    let t: String = trim(path);
    to_lowercase(t.as_str())
}

/// Whether the character separates the parts of a path.
pub open spec fn separates(c: char) -> bool {
    c == '\\' || c == '/'
}

/// The path without trailing separators.
pub open spec fn unterminated(s: Seq<char>) -> Seq<char>
    decreases s.len(),
{
    if s.len() > 0 && separates(s.last()) {
        unterminated(s.drop_last())
    } else {
        s
    }
}

/// What follows the last separator.
pub open spec fn after_separator(s: Seq<char>) -> Seq<char>
    decreases s.len(),
{
    if s.len() == 0 || separates(s.last()) {
        Seq::empty()
    } else {
        after_separator(s.drop_last()).push(s.last())
    }
}

/// The last part of a path that is not empty, or the whole path where there is
/// none.
pub open spec fn name_of(path: Seq<char>) -> Seq<char> {
    let p = unterminated(path);
    if p.len() == 0 {
        path
    } else {
        after_separator(p)
    }
}

proof fn lemma_after_separator(s: Seq<char>, from: int)
    requires
        0 <= from <= s.len(),
        from > 0 ==> separates(s[from - 1]),
        forall|j: int| from <= j < s.len() ==> !separates(#[trigger] s[j]),
    ensures
        after_separator(s) == s.skip(from),
    decreases s.len(),
{
    if s.len() > from {
        let t = s.drop_last();
        lemma_after_separator(t, from);
        assert(t.skip(from).push(s.last()) =~= s.skip(from));
    } else {
        assert(s.skip(from) =~= Seq::empty());
    }
}

/// The short name of an application.
pub fn app_name(path: &str) -> (r: String)
    ensures
        r@ == name_of(path@),
{
    let v: Vec<char> = text::chars_of(path);
    let mut to: usize = v.len();
    proof {
        assert(v@.take(to as int) =~= v@);
    }
    while to > 0 && (v[to - 1] == '\\' || v[to - 1] == '/')
        invariant
            to <= v@.len(),
            unterminated(v@) == unterminated(v@.take(to as int)),
        decreases to,
    {
        proof {
            assert(v@.take(to as int).drop_last() =~= v@.take(to - 1));
        }
        to = to - 1;
    }
    if to == 0 {
        return path.to_owned();
    }
    let mut from: usize = to;
    while from > 0 && v[from - 1] != '\\' && v[from - 1] != '/'
        invariant
            from <= to <= v@.len(),
            forall|j: int| from <= j < to ==> !separates(#[trigger] v@[j]),
        decreases from,
    {
        from = from - 1;
    }
    proof {
        let p = v@.take(to as int);
        lemma_after_separator(p, from as int);
        assert(p.skip(from as int) =~= v@.subrange(from as int, to as int));
    }
    text::text_between(&v, from, to)
}

/// The short name of an application is not empty and has no separator in it,
/// unless the path is made of nothing else.
pub proof fn name_is_one_part(path: Seq<char>)
    requires
        exists|i: int| 0 <= i < path.len() && !separates(#[trigger] path[i]),
    ensures
        name_of(path).len() > 0,
        forall|i: int| 0 <= i < name_of(path).len() ==> !separates(#[trigger] name_of(path)[i]),
{
    let i = choose|i: int| 0 <= i < path.len() && !separates(#[trigger] path[i]);
    lemma_unterminated(path, i);
    lemma_after_separator_plain(unterminated(path));
}

proof fn lemma_unterminated(s: Seq<char>, i: int)
    requires
        0 <= i < s.len(),
        !separates(s[i]),
    ensures
        unterminated(s).len() > 0,
        !separates(unterminated(s).last()),
    decreases s.len(),
{
    if separates(s.last()) {
        lemma_unterminated(s.drop_last(), i);
    }
}

proof fn lemma_after_separator_plain(s: Seq<char>)
    ensures
        forall|i: int|
            0 <= i < after_separator(s).len() ==> !separates(#[trigger] after_separator(s)[i]),
    decreases s.len(),
{
    if s.len() > 0 && !separates(s.last()) {
        let t = after_separator(s.drop_last());
        lemma_after_separator_plain(s.drop_last());
        assert forall|i: int| 0 <= i < after_separator(s).len() implies !separates(
            #[trigger] after_separator(s)[i],
        ) by {
            if i < t.len() {
                assert(!separates(t[i]));
            }
        }
    }
}

} // verus!
