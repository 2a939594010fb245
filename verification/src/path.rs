//! Absolute paths within a filesystem.
//!
//! Aliases and traversal are rejected here, before any engine sees a path: a
//! path that passes names one place, under every engine, below the root.

use vstd::prelude::*;
use vstd::string::StrSliceExecFns;

use crate::text;

verus! {

/// The longest path, in bytes.
pub const MAX_PATH_BYTES: usize = 4096;

/// The longest component of a path, in bytes.
pub const MAX_COMPONENT_BYTES: usize = 255;

/// How many bytes a text takes.
pub open spec fn byte_length(s: Seq<char>) -> nat {
    vstd::utf8::encode_utf8(s).len()
}

/// Whether a character is a control code.
pub open spec fn is_control(c: char) -> bool {
    c as u32 <= 0x1f || 0x7f <= c as u32 <= 0x9f
}

/// Whether a character may not stand in a component.
pub open spec fn forbidden(c: char) -> bool {
    is_control(c) || c == '\\' || c == ':' || c == '*' || c == '?' || c == '"' || c == '<' || c
        == '>' || c == '|'
}

/// Whether `s[from + 1 .. to]` is one component: what stands between a slash
/// and the next one, or the end.
pub open spec fn is_component(s: Seq<char>, from: int, to: int) -> bool {
    &&& 0 <= from < to <= s.len()
    &&& s[from] == '/'
    &&& to == s.len() || s[to] == '/'
    &&& forall|k: int| from < k < to ==> s[k] != '/'
}

/// Whether a component names one thing, and the same thing everywhere. A last
/// character that is neither dot nor space also excludes `.` and `..`.
pub open spec fn component_ok(c: Seq<char>) -> bool {
    &&& 0 < c.len()
    &&& byte_length(c) <= MAX_COMPONENT_BYTES
    &&& c.last() != '.'
    &&& c.last() != ' '
    &&& forall|i: int| 0 <= i < c.len() ==> !forbidden(#[trigger] c[i])
}

/// Whether every component of a path is in order.
pub open spec fn components_ok(s: Seq<char>) -> bool {
    forall|from: int, to: int| #[trigger]
        is_component(s, from, to) ==> component_ok(s.subrange(from + 1, to))
}

/// The path of the root.
pub open spec fn is_root(s: Seq<char>) -> bool {
    s == seq!['/']
}

/// Why a path is refused, if it is.
pub open spec fn refusal(s: Seq<char>) -> Option<Seq<char>> {
    if is_root(s) {
        None
    } else if s.len() == 0 || s[0] != '/' || byte_length(s) > MAX_PATH_BYTES || s.last() == '/' {
        Some("invalid filesystem path"@)
    } else if !components_ok(s) {
        Some("invalid filesystem path component"@)
    } else {
        None
    }
}

/// Where the last slash of an absolute path stands.
pub open spec fn last_slash(s: Seq<char>) -> int
    decreases s.len(),
{
    if s.len() == 0 {
        -1
    } else if s.last() == '/' {
        s.len() - 1
    } else {
        last_slash(s.drop_last())
    }
}

/// What stands after the last slash.
pub open spec fn final_name(s: Seq<char>) -> Seq<char> {
    s.subrange(last_slash(s) + 1, s.len() as int)
}

/// What stands between the first slash and the last one: the directory that
/// holds the path, named from the root; empty for the root itself.
pub open spec fn holder(s: Seq<char>) -> Seq<char> {
    if last_slash(s) <= 0 {
        seq![]
    } else {
        s.subrange(1, last_slash(s))
    }
}

/// The path as named from the root, without its leading slash.
pub open spec fn relative(s: Seq<char>) -> Seq<char> {
    if s.len() == 0 {
        s
    } else {
        s.subrange(1, s.len() as int)
    }
}

/// The last slash is one, and none follows.
pub proof fn lemma_last_slash(s: Seq<char>)
    requires
        0 < s.len(),
        s[0] == '/',
    ensures
        0 <= last_slash(s) < s.len(),
        s[last_slash(s)] == '/',
        forall|k: int| last_slash(s) < k < s.len() ==> s[k] != '/',
    decreases s.len(),
{
    if s.last() != '/' {
        lemma_last_slash(s.drop_last());
        assert forall|k: int| last_slash(s) < k < s.len() implies s[k] != '/' by {
            if k < s.len() - 1 {
                assert(s.drop_last()[k] == s[k]);
            }
        }
    }
}

/// Whether a character may not stand in a component.
fn is_forbidden(c: char) -> (yes: bool)
    ensures
        yes == forbidden(c),
{
    let v: u32 = c as u32;
    v <= 0x1f || (0x7f <= v && v <= 0x9f) || c == '\\' || c == ':' || c == '*' || c == '?' || c
        == '"' || c == '<' || c == '>' || c == '|'
}

/// Whether `chars[from + 1 .. to]` is a component in order.
fn check_component(chars: &Vec<char>, from: usize, to: usize) -> (ok: bool)
    requires
        from < to <= chars@.len(),
    ensures
        ok == component_ok(chars@.subrange(from + 1, to as int)),
{
    let ghost c = chars@.subrange(from + 1, to as int);
    if from + 1 == to {
        return false;
    }
    let mut bytes: usize = 0;
    let mut i: usize = from + 1;
    assert(c.take(0) =~= seq![]);
    while i < to
        invariant
            from + 1 <= i <= to <= chars@.len(),
            c == chars@.subrange(from + 1, to as int),
            bytes == byte_length(c.take(i - from - 1)),
            bytes <= MAX_COMPONENT_BYTES,
            forall|k: int| 0 <= k < i - from - 1 ==> !forbidden(#[trigger] c[k]),
        decreases to - i,
    {
        assert(chars[i as int] == c[i - from - 1]);
        if is_forbidden(chars[i]) {
            return false;
        }
        let width: usize = text::utf8_width(chars[i]);
        proof {
            text::lemma_encoding_of_one_more(c.take(i - from - 1), chars@[i as int]);
            assert(c.take(i - from - 1).push(chars@[i as int]) =~= c.take(i - from));
        }
        bytes = bytes + width;
        if bytes > MAX_COMPONENT_BYTES {
            proof {
                text::lemma_encoding_concatenates(c.take(i - from), c.skip(i - from));
                assert(c.take(i - from) + c.skip(i - from) =~= c);
            }
            return false;
        }
        i = i + 1;
    }
    assert(c.take(to - from - 1) =~= c);
    assert(c.last() == chars[to - 1]);
    chars[to - 1] != '.' && chars[to - 1] != ' '
}

/// Whether every component of an absolute path is in order.
fn check_components(chars: &Vec<char>) -> (ok: bool)
    requires
        0 < chars@.len(),
        chars@[0] == '/',
    ensures
        ok == components_ok(chars@),
{
    let mut from: usize = 0;
    let mut to: usize = 1;
    while to < chars.len()
        invariant
            from < to <= chars@.len(),
            chars@[from as int] == '/',
            forall|k: int| from < k < to ==> chars@[k] != '/',
            forall|a: int, b: int|
                b < to && #[trigger] is_component(chars@, a, b) ==> component_ok(
                    chars@.subrange(a + 1, b),
                ),
        decreases chars@.len() - to,
    {
        if chars[to] == '/' {
            assert(is_component(chars@, from as int, to as int));
            if !check_component(chars, from, to) {
                return false;
            }
            assert forall|a: int, b: int|
                b < to + 1 && #[trigger] is_component(chars@, a, b) implies component_ok(
                chars@.subrange(a + 1, b),
            ) by {
                if b == to {
                    assert(a == from);
                }
            }
            from = to;
        }
        to = to + 1;
    }
    assert(is_component(chars@, from as int, to as int));
    let ok = check_component(chars, from, to);
    if ok {
        assert forall|a: int, b: int| #[trigger] is_component(chars@, a, b) implies component_ok(
            chars@.subrange(a + 1, b),
        ) by {
            if b == to {
                assert(a == from);
            }
        }
    }
    ok
}

/// Whether a path is the root.
pub fn names_root(value: &str) -> (yes: bool)
    ensures
        yes == is_root(value@),
{
    proof {
        reveal_strlit("/");
        assert("/"@ =~= seq!['/']);
    }
    text::same(value, "/")
}

/// Accepts a path, or says why not.
pub fn path(value: &str) -> (r: Result<(), String>)
    ensures
        match (r, refusal(value@)) {
            (Ok(()), None) => true,
            (Err(e), Some(why)) => e@ == why,
            _ => false,
        },
{
    if names_root(value) {
        return Ok(());
    }
    let chars = text::characters(value);
    if chars.len() == 0 || chars[0] != '/' || value.as_bytes().len() > MAX_PATH_BYTES
        || chars[chars.len() - 1] == '/' {
        return Err("invalid filesystem path".to_owned());
    }
    if !check_components(&chars) {
        return Err("invalid filesystem path component".to_owned());
    }
    Ok(())
}

/// Where the last slash of an absolute path stands.
fn find_last_slash(value: &str) -> (at: usize)
    requires
        0 < value@.len(),
        value@[0] == '/',
    ensures
        at == last_slash(value@),
        at < value@.len(),
{
    let chars = text::characters(value);
    let mut at: usize = chars.len() - 1;
    proof {
        assert(chars@.take(chars@.len() as int) =~= chars@);
    }
    while chars[at] != '/'
        invariant
            at < chars@.len(),
            chars@[0] == '/',
            chars@ == value@,
            last_slash(chars@) == last_slash(chars@.take(at + 1)),
        decreases at,
    {
        assert(chars@.take(at + 1).drop_last() =~= chars@.take(at as int));
        assert(chars@.take(at + 1).last() == chars@[at as int]);
        at = at - 1;
    }
    assert(chars@.take(at + 1).last() == chars@[at as int]);
    at
}

/// What stands after the last slash of an absolute path.
pub fn name_of(value: &str) -> (name: String)
    requires
        0 < value@.len(),
        value@[0] == '/',
    ensures
        name@ == final_name(value@),
{
    let length: usize = value.unicode_len();
    let at: usize = find_last_slash(value);
    value.substring_char(at + 1, length).to_owned()
}

/// The directory that holds an absolute path, named from the root.
pub fn holder_of(value: &str) -> (name: String)
    requires
        0 < value@.len(),
        value@[0] == '/',
    ensures
        name@ == holder(value@),
{
    let at: usize = find_last_slash(value);
    if at == 0 {
        String::new()
    } else {
        value.substring_char(1, at).to_owned()
    }
}

/// An absolute path as named from the root.
pub fn relative_of(value: &str) -> (name: String)
    ensures
        name@ == relative(value@),
{
    let length: usize = value.unicode_len();
    if length == 0 {
        value.to_owned()
    } else {
        value.substring_char(1, length).to_owned()
    }
}

/// A path that passes is absolute.
pub proof fn lemma_accepted_is_absolute(s: Seq<char>)
    requires
        refusal(s) is None,
    ensures
        0 < s.len(),
        s[0] == '/',
{
}

/// No accepted path has an empty component, a component `.` or `..`, one that
/// ends in a dot or a space, or a character that some engine reads specially:
/// every component of it is a plain name of at most 255 bytes.
pub proof fn law_accepted_paths_are_confined(s: Seq<char>, from: int, to: int)
    requires
        refusal(s) is None,
        !is_root(s),
        is_component(s, from, to),
    ensures
        ({
            let c = s.subrange(from + 1, to);
            &&& 0 < c.len()
            &&& byte_length(c) <= 255
            &&& c != seq!['.']
            &&& c != seq!['.', '.']
            &&& c.last() != '.' && c.last() != ' '
            &&& forall|i: int|
                0 <= i < c.len() ==> !is_control(#[trigger] c[i]) && c[i] != '/' && c[i] != '\\'
                    && c[i] != ':' && c[i] != '*' && c[i] != '?' && c[i] != '"' && c[i] != '<'
                    && c[i] != '>' && c[i] != '|'
        }),
{
    let c = s.subrange(from + 1, to);
    assert forall|i: int| 0 <= i < c.len() implies !is_control(#[trigger] c[i]) && c[i] != '/'
        && c[i] != '\\' && c[i] != ':' && c[i] != '*' && c[i] != '?' && c[i] != '"' && c[i] != '<'
        && c[i] != '>' && c[i] != '|' by {
        assert(!forbidden(c[i]));
        assert(c[i] == s[from + 1 + i]);
    }
}

/// Splitting an accepted path at its last slash and joining it again gives the
/// path.
pub proof fn law_holder_and_name_make_the_path(s: Seq<char>)
    requires
        refusal(s) is None,
        !is_root(s),
    ensures
        s == if holder(s).len() == 0 {
            seq!['/'] + final_name(s)
        } else {
            seq!['/'] + holder(s) + seq!['/'] + final_name(s)
        },
        component_ok(final_name(s)),
        !final_name(s).contains('/'),
        seq!['/'] + relative(s) == s,
{
    lemma_last_slash(s);
    let at = last_slash(s);
    assert(is_component(s, at, s.len() as int));
    assert(seq!['/'] + relative(s) =~= s);
    if at == 0 {
        assert(s =~= seq!['/'] + final_name(s));
    } else {
        if at == 1 {
            assert(is_component(s, 0, 1));
            assert(component_ok(s.subrange(1, 1)));
        }
        assert(s =~= seq!['/'] + holder(s) + seq!['/'] + final_name(s));
    }
}

/// Whether a character may stand in a path: no control code, and none of those that
/// mean something to a shell or to another filesystem.
pub open spec fn allowed(c: char) -> bool {
    &&& 0x20 <= c as u32 <= 0x7e || 0xa0 <= c as u32
    &&& c != '\\' && c != ':' && c != '*' && c != '?'
    &&& c != '"' && c != '<' && c != '>' && c != '|'
}

/// Whether a text is a path as everything here takes one, said of its characters: it
/// is the root, or starts with a slash, ends with none and has no two in a row, holds
/// nothing but allowed characters, has no name that ends in a dot or a space, takes
/// at most 4096 bytes, and none of its names takes more than 255.
pub open spec fn well_made(s: Seq<char>) -> bool {
    s == seq!['/'] || {
        &&& 2 <= s.len()
        &&& s[0] == '/'
        &&& vstd::utf8::encode_utf8(s).len() <= 4096
        &&& forall|i: int|
            0 <= i < s.len() && #[trigger] s[i] == '/' ==> i + 1 < s.len() && s[i + 1] != '/'
        &&& forall|i: int| 0 <= i < s.len() ==> allowed(#[trigger] s[i])
        &&& forall|i: int|
            0 <= i < s.len() && (i + 1 == s.len() || s[i + 1] == '/') ==> #[trigger] s[i] != '.'
                && s[i] != ' '
        &&& forall|from: int, to: int|
            0 <= from < to <= s.len() && s[from] == '/' && (to == s.len() || s[to] == '/') && (
            forall|k: int| from < k < to ==> s[k] != '/') ==> vstd::utf8::encode_utf8(
                #[trigger] s.subrange(from + 1, to),
            ).len() <= 255
    }
}

/// The component that a character stands in.
proof fn lemma_component_around(s: Seq<char>, i: int) -> (around: (int, int))
    requires
        0 <= i < s.len(),
        s[0] == '/',
        s[i] != '/',
    ensures
        is_component(s, around.0, around.1),
        around.0 < i < around.1,
    decreases s.len() - i,
{
    let start = s.take(i + 1);
    lemma_last_slash(start);
    let from = last_slash(start);
    assert(start[from] == s[from]);
    assert(from != i);
    assert forall|k: int| from < k <= i implies s[k] != '/' by {
        assert(start[k] == s[k]);
    }
    if i + 1 == s.len() || s[i + 1] == '/' {
        (from, i + 1)
    } else {
        lemma_component_around(s, i + 1)
    }
}

/// Exactly the well-made paths are accepted. Of any other it is said whether the path
/// as a whole is none, by its ends or its length, or one of its names.
pub proof fn law_exactly_well_made_paths_are_accepted(s: Seq<char>)
    ensures
        refusal(s) is None <==> well_made(s),
        refusal(s) matches Some(why) ==> why == if s.len() == 0 || s[0] != '/' || s[s.len() - 1]
            == '/' || vstd::utf8::encode_utf8(s).len() > 4096 {
            "invalid filesystem path"@
        } else {
            "invalid filesystem path component"@
        },
{
    if refusal(s) is None && s != seq!['/'] {
        if s.len() == 1 {
            assert(s =~= seq!['/']);
        }
        assert forall|i: int| 0 <= i < s.len() && #[trigger] s[i] == '/' implies i + 1 < s.len()
            && s[i + 1] != '/' by {
            if i + 1 < s.len() && s[i + 1] == '/' {
                assert(is_component(s, i, i + 1));
            }
        }
        assert forall|i: int| 0 <= i < s.len() implies allowed(#[trigger] s[i]) by {
            if s[i] != '/' {
                let (from, to) = lemma_component_around(s, i);
                let c = s.subrange(from + 1, to);
                assert(component_ok(c));
                assert(c[i - from - 1] == s[i]);
            }
        }
        assert forall|i: int|
            0 <= i < s.len() && (i + 1 == s.len() || s[i + 1]
                == '/') implies #[trigger] s[i] != '.' && s[i] != ' ' by {
            if s[i] != '/' {
                let (from, to) = lemma_component_around(s, i);
                assert(to == i + 1);
                assert(s.subrange(from + 1, to).last() == s[i]);
            }
        }
        assert forall|from: int, to: int|
            0 <= from < to <= s.len() && s[from] == '/' && (to == s.len() || s[to] == '/') && (
            forall|k: int| from < k < to ==> s[k] != '/') implies vstd::utf8::encode_utf8(
            #[trigger] s.subrange(from + 1, to),
        ).len() <= 255 by {
            assert(is_component(s, from, to));
        }
    }
    if well_made(s) && s != seq!['/'] {
        assert(s.last() == s[s.len() - 1]);
        assert forall|from: int, to: int| #[trigger] is_component(s, from, to) implies component_ok(
            s.subrange(from + 1, to),
        ) by {
            let c = s.subrange(from + 1, to);
            assert(s[from] == '/');
            assert(from + 1 < to);
            assert(c.last() == s[to - 1]);
            assert forall|i: int| 0 <= i < c.len() implies !forbidden(#[trigger] c[i]) by {
                assert(c[i] == s[from + 1 + i]);
                assert(allowed(s[from + 1 + i]));
            }
        }
    }
}

} // verus!
