//! Channel naming rules.
//!
//! A submitted name is normalized (surrounding whitespace removed, ASCII
//! letters lowercased) and must then be 1 to 64 characters drawn from
//! lowercase ASCII letters, digits, `-` and `_`.

use vstd::prelude::*;
use vstd::string::StrSliceExecFns;
use vstd::string::StringExecFns;
use crate::errors::ChannelError;

verus! {

/// Characters stripped from the ends of a submitted channel name.
pub open spec fn is_space_char(c: char) -> bool {
    c == ' ' || c == '\t' || c == '\n' || c == '\r'
}

/// ASCII lowercasing, the only case folding channel names receive.
pub open spec fn lower_char(c: char) -> char {
    if 'A' <= c && c <= 'Z' {
        (((c as u8) + 32) as char)
    } else {
        c
    }
}

/// Characters a normalized channel name may consist of.
pub open spec fn is_name_char(c: char) -> bool {
    ('a' <= c && c <= 'z') || ('0' <= c && c <= '9') || c == '-' || c == '_'
}

pub open spec fn trim_front(s: Seq<char>) -> Seq<char>
    decreases s.len(),
{
    if s.len() > 0 && is_space_char(s[0]) {
        trim_front(s.drop_first())
    } else {
        s
    }
}

pub open spec fn trim_back(s: Seq<char>) -> Seq<char>
    decreases s.len(),
{
    if s.len() > 0 && is_space_char(s[s.len() - 1]) {
        trim_back(s.drop_last())
    } else {
        s
    }
}

/// What a submitted name becomes before validation.
pub open spec fn normalized_name(s: Seq<char>) -> Seq<char> {
    trim_back(trim_front(s)).map_values(|c: char| lower_char(c))
}

/// The naming rule checked on the normalized name.
pub open spec fn valid_name(s: Seq<char>) -> bool {
    &&& 1 <= s.len() <= 64
    &&& forall|i: int| 0 <= i < s.len() ==> is_name_char(s[i])
}

fn is_space_exec(c: char) -> (r: bool)
    ensures
        r == is_space_char(c),
{
    c == ' ' || c == '\t' || c == '\n' || c == '\r'
}

fn is_name_char_exec(c: char) -> (r: bool)
    ensures
        r == is_name_char(c),
{
    ('a' <= c && c <= 'z') || ('0' <= c && c <= '9') || c == '-' || c == '_'
}

/// Relies on String's FromIterator<char> impl: collecting characters yields
/// the string made of exactly those characters, in order.
#[verifier::external_body]
fn chars_to_string(chars: &Vec<char>) -> (r: String)
    ensures
        r@ == chars@,
{
    chars.iter().collect()
}

/// Nothing but whitespace.
pub open spec fn is_blank(s: Seq<char>) -> bool {
    forall|i: int| 0 <= i < s.len() ==> is_space_char(s[i])
}

/// Whether a string holds only whitespace (so a trimmed copy is empty).
pub fn is_blank_exec(s: &str) -> (r: bool)
    ensures
        r == is_blank(s@),
{
    let n: usize = s.unicode_len();
    let mut i: usize = 0;
    while i < n
        invariant
            i <= n,
            n == s@.len(),
            forall|j: int| 0 <= j < i ==> is_space_char(s@[j]),
        decreases n - i,
    {
        if !is_space_exec(s.get_char(i)) {
            return false;
        }
        i = i + 1;
    }
    true
}

/// Normalizes a submitted name without validating it: surrounding
/// whitespace removed, ASCII letters lowercased.
pub fn normalize_loose(name: &str) -> (r: String)
    ensures
        r@ == normalized_name(name@),
{
    let n: usize = name.unicode_len();
    let mut start: usize = 0;
    proof {
        assert(name@.skip(0) =~= name@);
    }
    while start < n && is_space_exec(name.get_char(start))
        invariant
            start <= n,
            n == name@.len(),
            trim_front(name@) == trim_front(name@.skip(start as int)),
        decreases n - start,
    {
        proof {
            let t = name@.skip(start as int);
            assert(t.len() > 0 && is_space_char(t[0]));
            assert(t.drop_first() =~= name@.skip(start as int + 1));
        }
        start = start + 1;
    }
    proof {
        assert(trim_front(name@.skip(start as int)) == name@.skip(start as int));
        assert(trim_front(name@) == name@.skip(start as int));
    }
    let mut end: usize = n;
    while end > start && is_space_exec(name.get_char(end - 1))
        invariant
            start <= end <= n,
            n == name@.len(),
            trim_front(name@) == name@.skip(start as int),
            trim_back(name@.skip(start as int)) == trim_back(
                name@.subrange(start as int, end as int),
            ),
        decreases end,
    {
        proof {
            let t = name@.subrange(start as int, end as int);
            assert(t.len() > 0 && is_space_char(t[t.len() - 1]));
            assert(t.drop_last() =~= name@.subrange(start as int, end as int - 1));
        }
        end = end - 1;
    }
    proof {
        let t = name@.subrange(start as int, end as int);
        assert(name@.skip(start as int) =~= name@.subrange(start as int, n as int));
        assert(trim_back(t) == t);
        assert(normalized_name(name@) == t.map_values(|c: char| lower_char(c)));
    }
    let mut out: Vec<char> = Vec::new();
    let mut i: usize = start;
    while i < end
        invariant
            start <= i <= end <= n,
            n == name@.len(),
            normalized_name(name@) == name@.subrange(start as int, end as int).map_values(
                |c: char| lower_char(c),
            ),
            out@ =~= name@.subrange(start as int, i as int).map_values(|c: char| lower_char(c)),
        decreases end - i,
    {
        let c = name.get_char(i);
        let lc: char = if 'A' <= c && c <= 'Z' {
            (((c as u8) + 32) as char)
        } else {
            c
        };
        assert(lc == lower_char(c));
        out.push(lc);
        i = i + 1;
        proof {
            assert(name@.subrange(start as int, i as int) =~= name@.subrange(
                start as int,
                i as int - 1,
            ).push(c));
        }
    }
    proof {
        assert(out@ =~= normalized_name(name@));
    }
    chars_to_string(&out)
}

/// Normalizes a submitted channel name and checks the naming rule.
///
/// Returns the normalized name exactly when it is valid, and
/// `InvalidName` otherwise.
pub fn normalize_channel_name(name: &str) -> (r: Result<String, ChannelError>)
    ensures
        match r {
            Ok(n) => n@ == normalized_name(name@) && valid_name(n@),
            Err(e) => e == ChannelError::InvalidName && !valid_name(normalized_name(name@)),
        },
{
    let norm = normalize_loose(name);
    let len: usize = norm.as_str().unicode_len();
    if len == 0 || len > 64 {
        return Err(ChannelError::InvalidName);
    }
    let mut i: usize = 0;
    while i < len
        invariant
            i <= len,
            len == norm@.len(),
            norm@ == normalized_name(name@),
            forall|j: int| 0 <= j < i ==> is_name_char(norm@[j]),
        decreases len - i,
    {
        if !is_name_char_exec(norm.as_str().get_char(i)) {
            return Err(ChannelError::InvalidName);
        }
        i = i + 1;
    }
    Ok(norm)
}

/// Law: a valid name is already normalized, so submitting a raw spelling
/// and submitting its normalized form aim at the same channel.
pub proof fn lemma_normalized_fixpoint(s: Seq<char>)
    requires
        valid_name(s),
    ensures
        normalized_name(s) == s,
{
    assert(!is_space_char(s[0]));
    assert(trim_front(s) == s);
    assert(!is_space_char(s[s.len() - 1]));
    assert(trim_back(s) == s);
    assert(s.map_values(|c: char| lower_char(c)) =~= s) by {
        assert forall|i: int| 0 <= i < s.len() implies lower_char(s[i]) == s[i] by {
            assert(is_name_char(s[i]));
        }
    }
}

/// The entries of a string list, as character sequences.
pub open spec fn name_views(entries: Seq<String>) -> Seq<Seq<char>> {
    entries.map_values(|s: String| s@)
}

/// The string list without the entries equal to `gone`, order kept.
pub open spec fn names_without(entries: Seq<String>, gone: Seq<char>) -> Seq<String>
    decreases entries.len(),
{
    if entries.len() == 0 {
        Seq::<String>::empty()
    } else if entries.last()@ == gone {
        names_without(entries.drop_last(), gone)
    } else {
        names_without(entries.drop_last(), gone).push(entries.last())
    }
}

/// The view-level image of [`names_without`].
pub open spec fn views_without(views: Seq<Seq<char>>, gone: Seq<char>) -> Seq<Seq<char>>
    decreases views.len(),
{
    if views.len() == 0 {
        Seq::<Seq<char>>::empty()
    } else if views.last() == gone {
        views_without(views.drop_last(), gone)
    } else {
        views_without(views.drop_last(), gone).push(views.last())
    }
}

/// Removing entries commutes with taking views.
pub proof fn lemma_names_without_views(entries: Seq<String>, gone: Seq<char>)
    ensures
        name_views(names_without(entries, gone)) == views_without(name_views(entries), gone),
    decreases entries.len(),
{
    if entries.len() > 0 {
        lemma_names_without_views(entries.drop_last(), gone);
        assert(name_views(entries).drop_last() =~= name_views(entries.drop_last()));
        assert(name_views(entries).last() == entries.last()@);
        if entries.last()@ != gone {
            assert(name_views(names_without(entries.drop_last(), gone).push(entries.last())) =~=
            name_views(names_without(entries.drop_last(), gone)).push(entries.last()@));
        }
    }
}

/// Filtering for a value that is not present changes nothing.
pub proof fn lemma_views_without_absent(views: Seq<Seq<char>>, gone: Seq<char>)
    requires
        !views.contains(gone),
    ensures
        views_without(views, gone) == views,
    decreases views.len(),
{
    if views.len() > 0 {
        let rest = views.drop_last();
        assert(forall|i: int| 0 <= i < rest.len() ==> rest[i] == views[i]);
        assert(views.last() != gone) by {
            assert(views[views.len() - 1] == views.last());
        }
        lemma_views_without_absent(rest, gone);
        assert(rest.push(views.last()) =~= views);
    }
}

/// On a duplicate-free list, filtering one value out is removal at its index.
pub proof fn lemma_views_without_at(views: Seq<Seq<char>>, gone: Seq<char>, i: int)
    requires
        forall|p: int, q: int| 0 <= p < q < views.len() ==> views[p] != views[q],
        0 <= i < views.len(),
        views[i] == gone,
    ensures
        views_without(views, gone) == views.remove(i),
    decreases views.len(),
{
    let rest = views.drop_last();
    assert(forall|k: int| 0 <= k < rest.len() ==> rest[k] == views[k]);
    if i == views.len() - 1 {
        assert(views.last() == gone);
        assert(!rest.contains(gone)) by {
            if rest.contains(gone) {
                let k = choose|k: int| 0 <= k < rest.len() && rest[k] == gone;
                assert(views[k] == views[i]);
            }
        }
        lemma_views_without_absent(rest, gone);
        assert(views.remove(i) =~= rest);
    } else {
        assert(views.last() != gone) by {
            assert(views[views.len() - 1] == views.last());
        }
        lemma_views_without_at(rest, gone, i);
        assert(views_without(views, gone) == rest.remove(i).push(views.last()));
        assert(rest.remove(i).push(views.last()) =~= views.remove(i));
    }
}

/// Character-by-character string comparison.
pub fn str_eq(a: &str, b: &str) -> (r: bool)
    ensures
        r == (a@ == b@),
{
    let na: usize = a.unicode_len();
    let nb: usize = b.unicode_len();
    if na != nb {
        return false;
    }
    let mut i: usize = 0;
    while i < na
        invariant
            i <= na,
            na == a@.len(),
            na == b@.len(),
            forall|j: int| 0 <= j < i ==> a@[j] == b@[j],
        decreases na - i,
    {
        if a.get_char(i) != b.get_char(i) {
            return false;
        }
        i = i + 1;
    }
    proof {
        assert(a@ =~= b@);
    }
    true
}

/// The journal file for a channel: `messages-<name>.json`.
pub fn store_file_name(channel: &str) -> (r: String)
    ensures
        r@ == "messages-"@ + channel@ + ".json"@,
{
    let mut s: String = String::from_str("messages-");
    s.append(channel);
    s.append(".json");
    s
}

} // verus!
