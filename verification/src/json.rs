//! The persisted form of the store: a pretty-printed JSON object whose
//! keys are profile keys and whose values are objects with the four
//! string fields of a profile.
//!
//! The writer and the reader are both defined against spec-level
//! functions on character sequences, and reading back what was written
//! is proved to recover the store exactly.

use vstd::prelude::*;
use vstd::string::StrSliceExecFns;
use crate::chars::{chars_of, push_str_chars, string_from_chars};
use crate::profile::{Profile, ProfileView};
use crate::store::{
    has_key, key_index, keys_unique, store_insert, ProfileStore, StoreView,
};

verus! {

// ---------------------------------------------------------------------
// The written form, as spec functions.
// ---------------------------------------------------------------------

/// How one character appears inside a quoted string: quotes and
/// backslashes get a backslash before them, all else stands as it is.
pub open spec fn esc_char(c: char) -> Seq<char> {
    if c == '"' || c == '\\' {
        seq!['\\', c]
    } else {
        seq![c]
    }
}

/// The escaped form of a whole string.
pub open spec fn esc(s: Seq<char>) -> Seq<char>
    decreases s.len(),
{
    if s.len() == 0 {
        Seq::empty()
    } else {
        esc(s.drop_last()) + esc_char(s.last())
    }
}

/// A string in quotes, with its content escaped.
pub open spec fn quoted(s: Seq<char>) -> Seq<char> {
    seq!['"'] + esc(s) + seq!['"']
}

/// One field line of a profile object: indentation, the quoted field
/// name, a colon, and the quoted value.
pub open spec fn field_line(name: Seq<char>, value: Seq<char>) -> Seq<char> {
    seq![' ', ' ', ' ', ' '] + quoted(name) + seq![':', ' '] + quoted(value)
}

/// The written form of one profile.
pub open spec fn ser_profile(p: ProfileView) -> Seq<char> {
    seq!['{', '\n'] + field_line("profile_name"@, p.profile_name) + seq![',', '\n']
        + field_line("name"@, p.name) + seq![',', '\n'] + field_line("email"@, p.email)
        + seq![',', '\n'] + field_line("remote"@, p.remote) + seq!['\n', ' ', ' ', '}']
}

/// The written form of one store entry: indentation, the quoted key, a
/// colon, and the profile object.
pub open spec fn ser_entry(e: (Seq<char>, ProfileView)) -> Seq<char> {
    seq![' ', ' '] + quoted(e.0) + seq![':', ' '] + ser_profile(e.1)
}

/// The written form of the entries from position `k` on, each preceded
/// by a separating comma, and the closing brace.
pub open spec fn ser_tail(s: StoreView, k: int) -> Seq<char>
    decreases s.len() - k,
{
    if k < 0 || k >= s.len() {
        seq!['\n', '}']
    } else {
        seq![',', '\n'] + ser_entry(s[k]) + ser_tail(s, k + 1)
    }
}

/// The written form of a whole store.
pub open spec fn ser_store(s: StoreView) -> Seq<char> {
    if s.len() == 0 {
        seq!['{', '}']
    } else {
        seq!['{', '\n'] + ser_entry(s[0]) + ser_tail(s, 1)
    }
}

// ---------------------------------------------------------------------
// The writer.
// ---------------------------------------------------------------------

/// Appends the quoted, escaped form of `s`.
fn push_quoted(out: &mut Vec<char>, s: &str)
    ensures
        final(out)@ == old(out)@ + quoted(s@),
{
    out.push('"');
    let len = s.unicode_len();
    let mut i: usize = 0;
    while i < len
        invariant
            len == s@.len(),
            i <= len,
            out@ =~= old(out)@ + seq!['"'] + esc(s@.take(i as int)),
        decreases len - i,
    {
        let c = s.get_char(i);
        if c == '"' || c == '\\' {
            out.push('\\');
        }
        out.push(c);
        proof {
            assert(s@.take(i + 1).drop_last() =~= s@.take(i as int));
            assert(s@.take(i + 1).last() == s@[i as int]);
            assert(out@ =~= old(out)@ + seq!['"'] + esc(s@.take(i + 1)));
        }
        i += 1;
    }
    out.push('"');
    proof {
        assert(s@.take(s@.len() as int) =~= s@);
        assert(out@ =~= old(out)@ + quoted(s@));
    }
}

/// Appends one field line.
fn push_field_line(out: &mut Vec<char>, name: &str, value: &str)
    ensures
        final(out)@ == old(out)@ + field_line(name@, value@),
{
    push_str_chars(out, "    ");
    proof {
        assert("    "@ =~= seq![' ', ' ', ' ', ' ']) by {
            reveal_strlit("    ");
        }
    }
    push_quoted(out, name);
    out.push(':');
    out.push(' ');
    push_quoted(out, value);
    proof {
        assert(out@ =~= old(out)@ + field_line(name@, value@));
    }
}

/// Appends the written form of one profile.
fn push_profile(out: &mut Vec<char>, p: &Profile)
    ensures
        final(out)@ == old(out)@ + ser_profile(p@),
{
    out.push('{');
    out.push('\n');
    push_field_line(out, "profile_name", p.profile_name.as_str());
    out.push(',');
    out.push('\n');
    push_field_line(out, "name", p.name.as_str());
    out.push(',');
    out.push('\n');
    push_field_line(out, "email", p.email.as_str());
    out.push(',');
    out.push('\n');
    push_field_line(out, "remote", p.remote.as_str());
    out.push('\n');
    out.push(' ');
    out.push(' ');
    out.push('}');
    proof {
        assert(out@ =~= old(out)@ + ser_profile(p@));
    }
}

/// Appends the written form of the entry at position `i`.
fn push_entry(out: &mut Vec<char>, store: &ProfileStore, i: usize)
    requires
        i < store@.len(),
    ensures
        final(out)@ == old(out)@ + ser_entry(store@[i as int]),
{
    out.push(' ');
    out.push(' ');
    push_quoted(out, store.key_at(i).as_str());
    out.push(':');
    out.push(' ');
    push_profile(out, store.profile_at(i));
    proof {
        assert(out@ =~= old(out)@ + ser_entry(store@[i as int]));
    }
}

/// Writes the store as pretty-printed JSON text.
pub fn store_to_json(store: &ProfileStore) -> (r: String)
    ensures
        r@ == ser_store(store@),
{
    let mut out: Vec<char> = Vec::new();
    out.push('{');
    if store.is_empty() {
        out.push('}');
        proof {
            assert(out@ =~= ser_store(store@));
        }
    } else {
        out.push('\n');
        push_entry(&mut out, store, 0);
        proof {
            assert(out@ =~= seq!['{', '\n'] + ser_entry(store@[0]));
        }
        let n = store.len();
        let mut i: usize = 1;
        while i < n
            invariant
                1 <= i <= n,
                n == store@.len(),
                out@ + ser_tail(store@, i as int) =~= ser_store(store@),
            decreases n - i,
        {
            out.push(',');
            out.push('\n');
            push_entry(&mut out, store, i);
            proof {
                assert(ser_tail(store@, i as int) =~= seq![',', '\n'] + ser_entry(store@[i as int])
                    + ser_tail(store@, i + 1));
                assert(out@ + ser_tail(store@, i + 1) =~= ser_store(store@));
            }
            i += 1;
        }
        out.push('\n');
        out.push('}');
        proof {
            assert(ser_tail(store@, n as int) =~= seq!['\n', '}']);
            assert(out@ =~= ser_store(store@));
        }
    }
    string_from_chars(&out)
}

// ---------------------------------------------------------------------
// The read form, as spec functions. Each takes the text still to be
// read and hands back what it read together with the text left over.
// ---------------------------------------------------------------------

/// Insignificant whitespace between tokens.
pub open spec fn is_ws(c: char) -> bool {
    c == ' ' || c == '\n' || c == '\t' || c == '\r'
}

/// The text with its leading whitespace dropped.
pub open spec fn skip_ws(s: Seq<char>) -> Seq<char>
    decreases s.len(),
{
    if s.len() > 0 && is_ws(s[0]) {
        skip_ws(s.skip(1))
    } else {
        s
    }
}

/// Reads the single character `c`, ignoring whitespace before it.
pub open spec fn parse_char(s: Seq<char>, c: char) -> Option<Seq<char>> {
    let t = skip_ws(s);
    if t.len() > 0 && t[0] == c {
        Some(t.skip(1))
    } else {
        None
    }
}

/// Reads a string body up to its closing quote, undoing escapes. The
/// opening quote has already been read.
pub open spec fn parse_str_body(s: Seq<char>) -> Option<(Seq<char>, Seq<char>)>
    decreases s.len(),
{
    if s.len() == 0 {
        None
    } else if s[0] == '"' {
        Some((Seq::empty(), s.skip(1)))
    } else if s[0] == '\\' {
        if s.len() >= 2 && (s[1] == '"' || s[1] == '\\') {
            match parse_str_body(s.skip(2)) {
                Some((v, r)) => Some((seq![s[1]] + v, r)),
                None => None,
            }
        } else {
            None
        }
    } else {
        match parse_str_body(s.skip(1)) {
            Some((v, r)) => Some((seq![s[0]] + v, r)),
            None => None,
        }
    }
}

/// Reads a quoted string.
pub open spec fn parse_string(s: Seq<char>) -> Option<(Seq<char>, Seq<char>)> {
    match parse_char(s, '"') {
        Some(t) => parse_str_body(t),
        None => None,
    }
}

/// Reads one `"name": "value"` pair whose name must be `name`.
pub open spec fn parse_field(s: Seq<char>, name: Seq<char>) -> Option<(Seq<char>, Seq<char>)> {
    match parse_string(s) {
        Some((n, r)) => if n == name {
            match parse_char(r, ':') {
                Some(r2) => parse_string(r2),
                None => None,
            }
        } else {
            None
        },
        None => None,
    }
}

/// Reads one profile object, with its four fields in their written
/// order.
pub open spec fn parse_profile(s: Seq<char>) -> Option<(ProfileView, Seq<char>)> {
    match parse_char(s, '{') {
        Some(t) => match parse_field(t, "profile_name"@) {
            Some((pn, r1)) => match parse_char(r1, ',') {
                Some(r1b) => match parse_field(r1b, "name"@) {
                    Some((nm, r2)) => match parse_char(r2, ',') {
                        Some(r2b) => match parse_field(r2b, "email"@) {
                            Some((em, r3)) => match parse_char(r3, ',') {
                                Some(r3b) => match parse_field(r3b, "remote"@) {
                                    Some((rm, r4)) => match parse_char(r4, '}') {
                                        Some(r5) => Some((
                                            ProfileView {
                                                profile_name: pn,
                                                name: nm,
                                                email: em,
                                                remote: rm,
                                            },
                                            r5,
                                        )),
                                        None => None,
                                    },
                                    None => None,
                                },
                                None => None,
                            },
                            None => None,
                        },
                        None => None,
                    },
                    None => None,
                },
                None => None,
            },
            None => None,
        },
        None => None,
    }
}

/// Reads one `"key": { ... }` entry.
pub open spec fn parse_entry(s: Seq<char>) -> Option<((Seq<char>, ProfileView), Seq<char>)> {
    match parse_string(s) {
        Some((k, r)) => match parse_char(r, ':') {
            Some(r2) => match parse_profile(r2) {
                Some((p, r3)) => Some(((k, p), r3)),
                None => None,
            },
            None => None,
        },
        None => None,
    }
}

/// Reads the entries after the first one — a comma and an entry each —
/// up to the closing brace, filing each entry as it comes. The check
/// that the leftover shrank keeps the recursion well founded.
pub open spec fn parse_entries(s: Seq<char>, acc: StoreView) -> Option<(StoreView, Seq<char>)>
    decreases s.len(),
{
    let t = skip_ws(s);
    if t.len() > 0 && t[0] == '}' {
        Some((acc, t.skip(1)))
    } else if t.len() > 0 && t[0] == ',' {
        match parse_entry(t.skip(1)) {
            Some((e, r)) => if r.len() < s.len() {
                parse_entries(r, store_insert(acc, e.0, e.1))
            } else {
                None
            },
            None => None,
        }
    } else {
        None
    }
}

/// Reads a whole store document; nothing but whitespace may follow it.
pub open spec fn parse_store(s: Seq<char>) -> Option<StoreView> {
    match parse_char(s, '{') {
        Some(t) => {
            let u = skip_ws(t);
            if u.len() > 0 && u[0] == '}' {
                if skip_ws(u.skip(1)).len() == 0 {
                    Some(Seq::empty())
                } else {
                    None
                }
            } else {
                match parse_entry(t) {
                    Some((e, r)) => match parse_entries(
                        r,
                        store_insert(Seq::empty(), e.0, e.1),
                    ) {
                        Some((acc, r2)) => if skip_ws(r2).len() == 0 {
                            Some(acc)
                        } else {
                            None
                        },
                        None => None,
                    },
                    None => None,
                }
            }
        }
        None => None,
    }
}

/// What loading a document yields: the store it describes, or an empty
/// store where it describes none.
pub open spec fn loaded_store(s: Seq<char>) -> StoreView {
    match parse_store(s) {
        Some(v) => v,
        None => Seq::empty(),
    }
}

// ---------------------------------------------------------------------
// The reader. Each function mirrors the spec function of its name on a
// slice of the text's characters.
// ---------------------------------------------------------------------

fn is_ws_exec(c: char) -> (r: bool)
    ensures
        r == is_ws(c),
{
    c == ' ' || c == '\n' || c == '\t' || c == '\r'
}

fn skip_ws_sl<'a>(s: &'a [char]) -> (r: &'a [char])
    ensures
        r@ == skip_ws(s@),
{
    let mut cur = s;
    while cur.len() > 0 && is_ws_exec(*vstd::slice::slice_index_get(cur, 0))
        invariant
            skip_ws(s@) == skip_ws(cur@),
        decreases cur@.len(),
    {
        let next = vstd::slice::slice_subrange(cur, 1, cur.len());
        proof {
            assert(next@ =~= cur@.skip(1));
        }
        cur = next;
    }
    cur
}

fn parse_char_sl<'a>(s: &'a [char], c: char) -> (r: Option<&'a [char]>)
    ensures
        match r {
            Some(t) => parse_char(s@, c) == Some(t@),
            None => parse_char(s@, c) is None,
        },
{
    let t = skip_ws_sl(s);
    if t.len() > 0 && *vstd::slice::slice_index_get(t, 0) == c {
        let rest = vstd::slice::slice_subrange(t, 1, t.len());
        proof {
            assert(rest@ =~= t@.skip(1));
        }
        Some(rest)
    } else {
        None
    }
}

fn parse_str_body_sl<'a>(s: &'a [char]) -> (r: Option<(Vec<char>, &'a [char])>)
    ensures
        match r {
            Some(p) => parse_str_body(s@) == Some((p.0@, p.1@)),
            None => parse_str_body(s@) is None,
        },
    decreases s@.len(),
{
    if s.len() == 0 {
        return None;
    }
    let c0 = *vstd::slice::slice_index_get(s, 0);
    if c0 == '"' {
        let rest = vstd::slice::slice_subrange(s, 1, s.len());
        proof {
            assert(rest@ =~= s@.skip(1));
        }
        let v: Vec<char> = Vec::new();
        return Some((v, rest));
    }
    if c0 == '\\' {
        if s.len() >= 2 {
            let c1 = *vstd::slice::slice_index_get(s, 1);
            if c1 == '"' || c1 == '\\' {
                let rest = vstd::slice::slice_subrange(s, 2, s.len());
                proof {
                    assert(rest@ =~= s@.skip(2));
                }
                return match parse_str_body_sl(rest) {
                    Some((mut v, r)) => {
                        v.insert(0, c1);
                        proof {
                            assert(v@ =~= seq![s@[1]] + v@.skip(1));
                        }
                        Some((v, r))
                    }
                    None => None,
                };
            }
        }
        return None;
    }
    let rest = vstd::slice::slice_subrange(s, 1, s.len());
    proof {
        assert(rest@ =~= s@.skip(1));
    }
    match parse_str_body_sl(rest) {
        Some((mut v, r)) => {
            v.insert(0, c0);
            proof {
                assert(v@ =~= seq![s@[0]] + v@.skip(1));
            }
            Some((v, r))
        }
        None => None,
    }
}

fn parse_string_sl<'a>(s: &'a [char]) -> (r: Option<(Vec<char>, &'a [char])>)
    ensures
        match r {
            Some(p) => parse_string(s@) == Some((p.0@, p.1@)),
            None => parse_string(s@) is None,
        },
{
    match parse_char_sl(s, '"') {
        Some(t) => parse_str_body_sl(t),
        None => None,
    }
}

fn parse_field_sl<'a>(s: &'a [char], name: &str) -> (r: Option<(Vec<char>, &'a [char])>)
    ensures
        match r {
            Some(p) => parse_field(s@, name@) == Some((p.0@, p.1@)),
            None => parse_field(s@, name@) is None,
        },
{
    match parse_string_sl(s) {
        Some((n, r)) => if crate::chars::vec_eq_str(&n, name) {
            match parse_char_sl(r, ':') {
                Some(r2) => parse_string_sl(r2),
                None => None,
            }
        } else {
            None
        },
        None => None,
    }
}

fn parse_profile_sl<'a>(s: &'a [char]) -> (r: Option<(Profile, &'a [char])>)
    ensures
        match r {
            Some(p) => parse_profile(s@) == Some((p.0@, p.1@)),
            None => parse_profile(s@) is None,
        },
{
    let t = match parse_char_sl(s, '{') {
        Some(t) => t,
        None => { return None; }
    };
    let (pn, r1) = match parse_field_sl(t, "profile_name") {
        Some(p) => p,
        None => { return None; }
    };
    let r1b = match parse_char_sl(r1, ',') {
        Some(r) => r,
        None => { return None; }
    };
    let (nm, r2) = match parse_field_sl(r1b, "name") {
        Some(p) => p,
        None => { return None; }
    };
    let r2b = match parse_char_sl(r2, ',') {
        Some(r) => r,
        None => { return None; }
    };
    let (em, r3) = match parse_field_sl(r2b, "email") {
        Some(p) => p,
        None => { return None; }
    };
    let r3b = match parse_char_sl(r3, ',') {
        Some(r) => r,
        None => { return None; }
    };
    let (rm, r4) = match parse_field_sl(r3b, "remote") {
        Some(p) => p,
        None => { return None; }
    };
    let r5 = match parse_char_sl(r4, '}') {
        Some(r) => r,
        None => { return None; }
    };
    let p = Profile::new(
        string_from_chars(&pn),
        string_from_chars(&nm),
        string_from_chars(&em),
        string_from_chars(&rm),
    );
    Some((p, r5))
}

fn parse_entry_sl<'a>(s: &'a [char]) -> (r: Option<((String, Profile), &'a [char])>)
    ensures
        match r {
            Some(p) => parse_entry(s@) == Some(((p.0.0@, p.0.1@), p.1@)),
            None => parse_entry(s@) is None,
        },
{
    let (k, r) = match parse_string_sl(s) {
        Some(p) => p,
        None => { return None; }
    };
    let r2 = match parse_char_sl(r, ':') {
        Some(r2) => r2,
        None => { return None; }
    };
    let (p, r3) = match parse_profile_sl(r2) {
        Some(p) => p,
        None => { return None; }
    };
    Some(((string_from_chars(&k), p), r3))
}

fn parse_entries_sl<'a>(s: &'a [char], store: &mut ProfileStore) -> (r: Option<&'a [char]>)
    requires
        old(store).wf(),
    ensures
        match r {
            Some(rest) => final(store).wf() && parse_entries(s@, old(store)@) == Some(
                (final(store)@, rest@),
            ),
            None => parse_entries(s@, old(store)@) is None,
        },
    decreases s@.len(),
{
    let t = skip_ws_sl(s);
    if t.len() == 0 {
        return None;
    }
    let c0 = *vstd::slice::slice_index_get(t, 0);
    if c0 == '}' {
        let rest = vstd::slice::slice_subrange(t, 1, t.len());
        proof {
            assert(rest@ =~= t@.skip(1));
        }
        return Some(rest);
    }
    if c0 == ',' {
        let after = vstd::slice::slice_subrange(t, 1, t.len());
        proof {
            assert(after@ =~= t@.skip(1));
        }
        let ((k, p), r) = match parse_entry_sl(after) {
            Some(e) => e,
            None => { return None; }
        };
        if r.len() < s.len() {
            store.insert(k, p);
            return parse_entries_sl(r, store);
        }
        return None;
    }
    None
}

fn parse_store_sl(s: &[char]) -> (r: Option<ProfileStore>)
    ensures
        match r {
            Some(st) => st.wf() && parse_store(s@) == Some(st@),
            None => parse_store(s@) is None,
        },
{
    let t = match parse_char_sl(s, '{') {
        Some(t) => t,
        None => { return None; }
    };
    let u = skip_ws_sl(t);
    if u.len() > 0 && *vstd::slice::slice_index_get(u, 0) == '}' {
        let after = vstd::slice::slice_subrange(u, 1, u.len());
        proof {
            assert(after@ =~= u@.skip(1));
        }
        let v = skip_ws_sl(after);
        if v.len() == 0 {
            return Some(ProfileStore::new());
        }
        return None;
    }
    let ((k, p), r) = match parse_entry_sl(t) {
        Some(e) => e,
        None => { return None; }
    };
    let mut st = ProfileStore::new();
    st.insert(k, p);
    match parse_entries_sl(r, &mut st) {
        Some(r2) => {
            let v = skip_ws_sl(r2);
            if v.len() == 0 {
                Some(st)
            } else {
                None
            }
        }
        None => None,
    }
}

// ---------------------------------------------------------------------
// Reading back what was written recovers the store.
// ---------------------------------------------------------------------

/// Every character is insignificant whitespace.
pub open spec fn all_ws(p: Seq<char>) -> bool {
    forall|i: int| 0 <= i < p.len() ==> is_ws(p[i])
}

proof fn lemma_skip_ws_all(p: Seq<char>, x: Seq<char>)
    requires
        all_ws(p),
    ensures
        skip_ws(p + x) == skip_ws(x),
    decreases p.len(),
{
    if p.len() == 0 {
        assert(p + x =~= x);
    } else {
        assert(is_ws((p + x)[0]));
        assert((p + x).skip(1) =~= p.skip(1) + x);
        lemma_skip_ws_all(p.skip(1), x);
    }
}

proof fn lemma_skip_ws_nonws(s: Seq<char>)
    requires
        s.len() == 0 || !is_ws(s[0]),
    ensures
        skip_ws(s) == s,
{
}

proof fn lemma_parse_char_at(p: Seq<char>, c: char, x: Seq<char>)
    requires
        all_ws(p),
        !is_ws(c),
    ensures
        parse_char(p + seq![c] + x, c) == Some(x),
{
    let s = p + seq![c] + x;
    assert(s =~= p + (seq![c] + x));
    lemma_skip_ws_all(p, seq![c] + x);
    lemma_skip_ws_nonws(seq![c] + x);
    assert((seq![c] + x)[0] == c);
    assert((seq![c] + x).skip(1) =~= x);
}

proof fn lemma_esc_front(v: Seq<char>)
    requires
        v.len() > 0,
    ensures
        esc(v) == esc_char(v[0]) + esc(v.skip(1)),
    decreases v.len(),
{
    if v.len() == 1 {
        assert(v.drop_last() =~= Seq::empty());
        assert(v.skip(1) =~= Seq::empty());
        assert(v.last() == v[0]);
        assert(esc(v) == esc(Seq::empty()) + esc_char(v[0]));
        assert(Seq::empty() + esc_char(v[0]) =~= esc_char(v[0]) + Seq::empty());
    } else {
        let w = v.drop_last();
        lemma_esc_front(w);
        assert(w[0] == v[0]);
        assert(v.skip(1).len() > 0);
        assert(v.skip(1).drop_last() =~= w.skip(1));
        assert(v.skip(1).last() == v.last());
        assert(esc(v.skip(1)) == esc(w.skip(1)) + esc_char(v.last()));
        assert(esc(v) == (esc_char(v[0]) + esc(w.skip(1))) + esc_char(v.last()));
        assert((esc_char(v[0]) + esc(w.skip(1))) + esc_char(v.last()) =~= esc_char(v[0]) + (esc(
            w.skip(1),
        ) + esc_char(v.last())));
    }
}

proof fn lemma_parse_str_body_esc(v: Seq<char>, rest: Seq<char>)
    ensures
        parse_str_body(esc(v) + seq!['"'] + rest) == Some((v, rest)),
    decreases v.len(),
{
    let s = esc(v) + seq!['"'] + rest;
    if v.len() == 0 {
        assert(esc(v) =~= Seq::<char>::empty());
        assert(s =~= seq!['"'] + rest);
        assert(s[0] == '"');
        assert(s.skip(1) =~= rest);
        assert(v =~= Seq::<char>::empty());
    } else {
        lemma_esc_front(v);
        let c = v[0];
        let tail = esc(v.skip(1)) + seq!['"'] + rest;
        lemma_parse_str_body_esc(v.skip(1), rest);
        if c == '"' || c == '\\' {
            assert(esc_char(c) == seq!['\\', c]);
            assert(s =~= seq!['\\', c] + tail);
            assert(s[0] == '\\');
            assert(s.len() >= 2);
            assert(s[1] == c);
            assert(s.skip(2) =~= tail);
            assert(seq![s[1]] + v.skip(1) =~= v);
        } else {
            assert(esc_char(c) == seq![c]);
            assert(s =~= seq![c] + tail);
            assert(s[0] == c);
            assert(s.skip(1) =~= tail);
            assert(seq![s[0]] + v.skip(1) =~= v);
        }
    }
}

proof fn lemma_parse_string_quoted(p: Seq<char>, v: Seq<char>, rest: Seq<char>)
    requires
        all_ws(p),
    ensures
        parse_string(p + quoted(v) + rest) == Some((v, rest)),
{
    let x = esc(v) + seq!['"'] + rest;
    assert(p + quoted(v) + rest =~= p + seq!['"'] + x);
    lemma_parse_char_at(p, '"', x);
    lemma_parse_str_body_esc(v, rest);
}

proof fn lemma_parse_field_at(p: Seq<char>, name: Seq<char>, v: Seq<char>, rest: Seq<char>)
    requires
        all_ws(p),
    ensures
        parse_field(p + field_line(name, v) + rest, name) == Some((v, rest)),
{
    let s = p + field_line(name, v) + rest;
    let ind = seq![' ', ' ', ' ', ' '];
    let a = seq![':', ' '] + quoted(v) + rest;
    assert(s =~= (p + ind) + quoted(name) + a);
    assert(all_ws(p + ind));
    lemma_parse_string_quoted(p + ind, name, a);
    let b = seq![' '] + quoted(v) + rest;
    assert(a =~= Seq::empty() + seq![':'] + b);
    lemma_parse_char_at(Seq::empty(), ':', b);
    assert(b =~= seq![' '] + quoted(v) + rest);
    assert(all_ws(seq![' ']));
    lemma_parse_string_quoted(seq![' '], v, rest);
}

#[verifier::rlimit(60)]
proof fn lemma_parse_profile_at(p: Seq<char>, pr: ProfileView, rest: Seq<char>)
    requires
        all_ws(p),
    ensures
        parse_profile(p + ser_profile(pr) + rest) == Some((pr, rest)),
{
    let s = p + ser_profile(pr) + rest;
    let fl1 = field_line("profile_name"@, pr.profile_name);
    let fl2 = field_line("name"@, pr.name);
    let fl3 = field_line("email"@, pr.email);
    let fl4 = field_line("remote"@, pr.remote);
    let a4 = seq!['\n', ' ', ' ', '}'] + rest;
    let a3 = seq![',', '\n'] + fl4 + a4;
    let a2 = seq![',', '\n'] + fl3 + a3;
    let a1 = seq![',', '\n'] + fl2 + a2;
    let t = seq!['\n'] + fl1 + a1;
    assert(s =~= p + seq!['{'] + t);
    lemma_parse_char_at(p, '{', t);
    assert(all_ws(seq!['\n']));
    lemma_parse_field_at(seq!['\n'], "profile_name"@, pr.profile_name, a1);
    let b1 = seq!['\n'] + fl2 + a2;
    assert(a1 =~= Seq::empty() + seq![','] + b1);
    lemma_parse_char_at(Seq::empty(), ',', b1);
    lemma_parse_field_at(seq!['\n'], "name"@, pr.name, a2);
    let b2 = seq!['\n'] + fl3 + a3;
    assert(a2 =~= Seq::empty() + seq![','] + b2);
    lemma_parse_char_at(Seq::empty(), ',', b2);
    lemma_parse_field_at(seq!['\n'], "email"@, pr.email, a3);
    let b3 = seq!['\n'] + fl4 + a4;
    assert(a3 =~= Seq::empty() + seq![','] + b3);
    lemma_parse_char_at(Seq::empty(), ',', b3);
    lemma_parse_field_at(seq!['\n'], "remote"@, pr.remote, a4);
    assert(a4 =~= seq!['\n', ' ', ' '] + seq!['}'] + rest);
    assert(all_ws(seq!['\n', ' ', ' ']));
    lemma_parse_char_at(seq!['\n', ' ', ' '], '}', rest);
    assert((ProfileView {
        profile_name: pr.profile_name,
        name: pr.name,
        email: pr.email,
        remote: pr.remote,
    }) == pr);
}

proof fn lemma_parse_entry_at(p: Seq<char>, e: (Seq<char>, ProfileView), rest: Seq<char>)
    requires
        all_ws(p),
    ensures
        parse_entry(p + ser_entry(e) + rest) == Some((e, rest)),
{
    let s = p + ser_entry(e) + rest;
    let a = seq![':', ' '] + ser_profile(e.1) + rest;
    assert(s =~= (p + seq![' ', ' ']) + quoted(e.0) + a);
    assert(all_ws(p + seq![' ', ' ']));
    lemma_parse_string_quoted(p + seq![' ', ' '], e.0, a);
    let b = seq![' '] + ser_profile(e.1) + rest;
    assert(a =~= Seq::empty() + seq![':'] + b);
    lemma_parse_char_at(Seq::empty(), ':', b);
    assert(b =~= seq![' '] + ser_profile(e.1) + rest);
    assert(all_ws(seq![' ']));
    lemma_parse_profile_at(seq![' '], e.1, rest);
    assert((e.0, e.1) == e);
}

proof fn lemma_parse_entries_tail(s: StoreView, k: int, rest: Seq<char>)
    requires
        keys_unique(s),
        1 <= k <= s.len(),
    ensures
        parse_entries(ser_tail(s, k) + rest, s.take(k)) == Some((s, rest)),
    decreases s.len() - k,
{
    let input = ser_tail(s, k) + rest;
    if k == s.len() {
        assert(ser_tail(s, k) == seq!['\n', '}']);
        assert(input =~= seq!['\n'] + (seq!['}'] + rest));
        lemma_skip_ws_all(seq!['\n'], seq!['}'] + rest);
        lemma_skip_ws_nonws(seq!['}'] + rest);
        let t = skip_ws(input);
        assert(t == seq!['}'] + rest);
        assert(t[0] == '}');
        assert(t.skip(1) =~= rest);
        assert(s.take(k) =~= s);
    } else {
        let tail2 = ser_tail(s, k + 1) + rest;
        assert(ser_tail(s, k) == seq![',', '\n'] + ser_entry(s[k]) + ser_tail(s, k + 1));
        assert(input =~= seq![',', '\n'] + ser_entry(s[k]) + tail2);
        assert(input[0] == ',');
        lemma_skip_ws_nonws(input);
        let t = skip_ws(input);
        assert(t == input);
        assert(t[0] == ',');
        assert(t.skip(1) =~= seq!['\n'] + ser_entry(s[k]) + tail2);
        assert(all_ws(seq!['\n']));
        lemma_parse_entry_at(seq!['\n'], s[k], tail2);
        assert(tail2.len() < input.len());
        if has_key(s.take(k), s[k].0) {
            let j = key_index(s.take(k), s[k].0);
            assert(0 <= j < s.take(k).len() && s.take(k)[j].0 == s[k].0);
            assert(s[j].0 == s[k].0 && j != k);
            assert(false);
        }
        assert(store_insert(s.take(k), s[k].0, s[k].1) == s.take(k).push((s[k].0, s[k].1)));
        assert((s[k].0, s[k].1) == s[k]);
        assert(s.take(k).push(s[k]) =~= s.take(k + 1));
        lemma_parse_entries_tail(s, k + 1, rest);
    }
}

/// Round trip: reading back the written form of a store recovers the
/// store exactly — the same keys, with the same four fields under
/// each, in the same order.
pub proof fn lemma_store_round_trip(s: StoreView)
    requires
        keys_unique(s),
    ensures
        parse_store(ser_store(s)) == Some(s),
        loaded_store(ser_store(s)) == s,
{
    let w = ser_store(s);
    if s.len() == 0 {
        assert(w == seq!['{', '}']);
        assert(w =~= Seq::empty() + seq!['{'] + seq!['}']);
        lemma_parse_char_at(Seq::empty(), '{', seq!['}']);
        lemma_skip_ws_nonws(seq!['}']);
        assert(seq!['}'][0] == '}');
        assert(seq!['}'].skip(1) =~= Seq::<char>::empty());
        lemma_skip_ws_nonws(Seq::<char>::empty());
        assert(s =~= Seq::<(Seq<char>, ProfileView)>::empty());
    } else {
        let t0 = seq!['\n'] + ser_entry(s[0]) + ser_tail(s, 1);
        assert(w =~= Seq::empty() + seq!['{'] + t0);
        lemma_parse_char_at(Seq::empty(), '{', t0);
        let q_and_rest = quoted(s[0].0) + (seq![':', ' '] + ser_profile(s[0].1) + ser_tail(s, 1));
        assert(t0 =~= seq!['\n', ' ', ' '] + q_and_rest);
        assert(all_ws(seq!['\n', ' ', ' ']));
        lemma_skip_ws_all(seq!['\n', ' ', ' '], q_and_rest);
        assert(q_and_rest[0] == '"');
        lemma_skip_ws_nonws(q_and_rest);
        let u = skip_ws(t0);
        assert(u == q_and_rest);
        assert(u.len() > 0 && u[0] != '}');
        assert(all_ws(seq!['\n']));
        lemma_parse_entry_at(seq!['\n'], s[0], ser_tail(s, 1));
        assert(t0 =~= seq!['\n'] + ser_entry(s[0]) + ser_tail(s, 1));
        assert(!has_key(Seq::empty(), s[0].0));
        assert((s[0].0, s[0].1) == s[0]);
        assert(store_insert(Seq::empty(), s[0].0, s[0].1) =~= s.take(1));
        lemma_parse_entries_tail(s, 1, Seq::empty());
        assert(ser_tail(s, 1) + Seq::<char>::empty() =~= ser_tail(s, 1));
        lemma_skip_ws_nonws(Seq::<char>::empty());
    }
}

/// Reads a store document. A document that does not parse — or parses
/// to nothing — yields the empty store.
pub fn load_store(text: &str) -> (r: ProfileStore)
    ensures
        r.wf(),
        r@ == loaded_store(text@),
{
    let v = chars_of(text);
    match parse_store_sl(v.as_slice()) {
        Some(st) => st,
        None => ProfileStore::new(),
    }
}

} // verus!

