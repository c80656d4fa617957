//! The manifest file format and its codec, proved to round-trip.
//!
//! A manifest is a JSON array of objects with exactly the two string
//! members `folder_name` and `install_command`. The reader takes standard
//! JSON for that shape: whitespace anywhere between tokens and around the
//! document, the two members in either order, the escapes `\"`, `\\`,
//! `\/`, `\b`, `\f`, `\n`, `\r`, `\t`, and `\uXXXX` with four hex digits —
//! a surrogate pair naming one character beyond the basic plane, a lone
//! surrogate refused. The writer emits one canonical text within that
//! language: no whitespace, `folder_name` first, the short escapes where
//! they exist and `\u00XX` (lower-case hex) for the remaining control
//! characters; every character at or above U+0020 other than `"` and `\`
//! stands for itself.

use vstd::prelude::*;
use crate::manifest::{Dependency, DepView};
use crate::text::{chars_of, string_of_chars};

verus! {

// ---------------------------------------------------------------------------
// Writing
// ---------------------------------------------------------------------------

/// The lower-case hex digit for `n` (which must be below 16).
pub open spec fn hex_char(n: u8) -> char {
    if n < 10 {
        ((n + 0x30) as char)  // '0'..'9'
    } else {
        ((n + 0x57) as char)  // 'a'..'f'
    }
}

/// How one character is written inside a JSON string.
pub open spec fn esc_char(c: char) -> Seq<char> {
    if c == '"' {
        seq!['\\', '"']
    } else if c == '\\' {
        seq!['\\', '\\']
    } else if c == '\u{8}' {
        seq!['\\', 'b']
    } else if c == '\t' {
        seq!['\\', 't']
    } else if c == '\n' {
        seq!['\\', 'n']
    } else if c == '\u{c}' {
        seq!['\\', 'f']
    } else if c == '\r' {
        seq!['\\', 'r']
    } else if (c as u32) < 0x20 {
        seq!['\\', 'u', '0', '0', hex_char((c as u32 / 16) as u8), hex_char((c as u32 % 16) as u8)]
    } else {
        seq![c]
    }
}

/// How a whole string body is written (without the surrounding quotes).
pub open spec fn esc_str(s: Seq<char>) -> Seq<char>
    decreases s.len(),
{
    if s.len() == 0 {
        Seq::empty()
    } else {
        esc_char(s[0]) + esc_str(s.skip(1))
    }
}

/// A quoted JSON string.
pub open spec fn ser_string(s: Seq<char>) -> Seq<char> {
    seq!['"'] + esc_str(s) + seq!['"']
}

/// The first member name of a record object.
pub open spec fn key_folder() -> Seq<char> {
    seq!['f', 'o', 'l', 'd', 'e', 'r', '_', 'n', 'a', 'm', 'e']
}

/// The second member name of a record object.
pub open spec fn key_install() -> Seq<char> {
    seq!['i', 'n', 's', 't', 'a', 'l', 'l', '_', 'c', 'o', 'm', 'm', 'a', 'n', 'd']
}

/// One record, as a JSON object.
pub open spec fn ser_record(d: DepView) -> Seq<char> {
    seq!['{'] + ser_string(key_folder()) + seq![':'] + ser_string(d.folder_name) + seq![',']
        + ser_string(key_install()) + seq![':'] + ser_string(d.install_command) + seq!['}']
}

/// A non-empty run of records, comma-separated.
pub open spec fn ser_records(ds: Seq<DepView>) -> Seq<char>
    decreases ds.len(),
{
    if ds.len() <= 1 {
        if ds.len() == 0 {
            Seq::empty()
        } else {
            ser_record(ds[0])
        }
    } else {
        ser_record(ds[0]) + seq![','] + ser_records(ds.skip(1))
    }
}

/// A whole manifest, as a JSON array.
pub open spec fn ser_manifest(ds: Seq<DepView>) -> Seq<char> {
    seq!['['] + ser_records(ds) + seq![']']
}

// ---------------------------------------------------------------------------
// Reading
// ---------------------------------------------------------------------------

/// The numeric value of a hex digit, upper or lower case.
pub open spec fn hex_val(c: char) -> Option<u8> {
    let u = c as u32;
    if 0x30 <= u && u <= 0x39 {
        Some((u - 0x30) as u8)
    } else if 0x61 <= u && u <= 0x66 {
        Some((u - 0x61 + 10) as u8)
    } else if 0x41 <= u && u <= 0x46 {
        Some((u - 0x41 + 10) as u8)
    } else {
        None
    }
}

/// The character a one-letter escape stands for, if `e` is such a letter.
pub open spec fn simple_unesc(e: char) -> Option<char> {
    if e == '"' {
        Some('"')
    } else if e == '\\' {
        Some('\\')
    } else if e == '/' {
        Some('/')
    } else if e == 'b' {
        Some('\u{8}')
    } else if e == 't' {
        Some('\t')
    } else if e == 'n' {
        Some('\n')
    } else if e == 'f' {
        Some('\u{c}')
    } else if e == 'r' {
        Some('\r')
    } else {
        None
    }
}

/// The value of the four hex digits of a `\uXXXX` escape standing at
/// `s[2]` through `s[5]`, if all four are hex digits.
pub open spec fn hex4_val(s: Seq<char>, at: int) -> Option<u32> {
    if hex_val(s[at]) is Some && hex_val(s[at + 1]) is Some && hex_val(s[at + 2]) is Some
        && hex_val(s[at + 3]) is Some {
        Some(
            (hex_val(s[at]).unwrap() * 0x1000 + hex_val(s[at + 1]).unwrap() * 0x100 + hex_val(
                s[at + 2],
            ).unwrap() * 16 + hex_val(s[at + 3]).unwrap()) as u32,
        )
    } else {
        None
    }
}

/// Reads a string body up to and over its closing quote. Returns the decoded
/// content and what follows the closing quote, or `None` if the input ends
/// before the quote, holds a bare control character, or holds an escape this
/// format does not define. A `\uXXXX` escape names the character with that
/// value; a high surrogate must be followed by a low-surrogate escape and
/// the pair names one character beyond the basic plane; a lone surrogate
/// names nothing and is refused.
pub open spec fn unesc(s: Seq<char>) -> Option<(Seq<char>, Seq<char>)>
    decreases s.len(),
{
    if s.len() == 0 {
        None
    } else if s[0] == '"' {
        Some((Seq::empty(), s.skip(1)))
    } else if s[0] == '\\' {
        if s.len() < 2 {
            None
        } else if s[1] == 'u' {
            if s.len() < 6 {
                None
            } else {
                match hex4_val(s, 2) {
                    Some(code) => if 0xD800 <= code && code <= 0xDBFF {
                        if s.len() >= 12 && s[6] == '\\' && s[7] == 'u' && hex4_val(s, 8) is Some {
                            let low = hex4_val(s, 8).unwrap();
                            if 0xDC00 <= low && low <= 0xDFFF {
                                let scalar = 0x10000 + (code - 0xD800) * 0x400 + (low - 0xDC00);
                                match unesc(s.skip(12)) {
                                    Some((c, r)) => Some((seq![(scalar as char)] + c, r)),
                                    None => None,
                                }
                            } else {
                                None
                            }
                        } else {
                            None
                        }
                    } else if 0xDC00 <= code && code <= 0xDFFF {
                        None
                    } else {
                        match unesc(s.skip(6)) {
                            Some((c, r)) => Some((seq![(code as char)] + c, r)),
                            None => None,
                        }
                    },
                    None => None,
                }
            }
        } else {
            match simple_unesc(s[1]) {
                Some(d) => match unesc(s.skip(2)) {
                    Some((c, r)) => Some((seq![d] + c, r)),
                    None => None,
                },
                None => None,
            }
        }
    } else if (s[0] as u32) < 0x20 {
        None
    } else {
        match unesc(s.skip(1)) {
            Some((c, r)) => Some((seq![s[0]] + c, r)),
            None => None,
        }
    }
}

/// Whitespace JSON allows between tokens.
pub open spec fn is_json_ws(c: char) -> bool {
    c == ' ' || c == '\t' || c == '\n' || c == '\r'
}

/// `s` without its leading whitespace.
pub open spec fn skip_ws(s: Seq<char>) -> Seq<char>
    decreases s.len(),
{
    if s.len() > 0 && is_json_ws(s[0]) {
        skip_ws(s.skip(1))
    } else {
        s
    }
}

/// Reads a quoted string: an opening quote, then a body as `unesc` reads it.
pub open spec fn p_string(s: Seq<char>) -> Option<(Seq<char>, Seq<char>)> {
    if s.len() >= 1 && s[0] == '"' {
        unesc(s.skip(1))
    } else {
        None
    }
}

/// Reads one object member: whitespace, a key string, whitespace, `:`,
/// whitespace, a value string. Returns the key, the value and what follows
/// the value's closing quote.
pub open spec fn p_member(s: Seq<char>) -> Option<((Seq<char>, Seq<char>), Seq<char>)> {
    match p_string(skip_ws(s)) {
        Some((k, r1)) => {
            let r2 = skip_ws(r1);
            if r2.len() >= 1 && r2[0] == ':' {
                match p_string(skip_ws(r2.skip(1))) {
                    Some((v, r3)) => Some(((k, v), r3)),
                    None => None,
                }
            } else {
                None
            }
        },
        None => None,
    }
}

/// The record two members form, when one key is `folder_name` and the
/// other is `install_command`.
pub open spec fn record_of_members(m1: (Seq<char>, Seq<char>), m2: (Seq<char>, Seq<char>)) -> Option<
    DepView,
> {
    if m1.0 == key_folder() && m2.0 == key_install() {
        Some(DepView { folder_name: m1.1, install_command: m2.1 })
    } else if m1.0 == key_install() && m2.0 == key_folder() {
        Some(DepView { folder_name: m2.1, install_command: m1.1 })
    } else {
        None
    }
}

/// Reads one record object and what follows it: `{`, the two members in
/// either order, `}`, with whitespace allowed around every token.
pub open spec fn p_record(s: Seq<char>) -> Option<(DepView, Seq<char>)> {
    let s0 = skip_ws(s);
    if s0.len() >= 1 && s0[0] == '{' {
        match p_member(s0.skip(1)) {
            Some((m1, r1)) => {
                let r2 = skip_ws(r1);
                if r2.len() >= 1 && r2[0] == ',' {
                    match p_member(r2.skip(1)) {
                        Some((m2, r3)) => {
                            let r4 = skip_ws(r3);
                            if r4.len() >= 1 && r4[0] == '}' {
                                match record_of_members(m1, m2) {
                                    Some(d) => Some((d, r4.skip(1))),
                                    None => None,
                                }
                            } else {
                                None
                            }
                        },
                        None => None,
                    }
                } else {
                    None
                }
            },
            None => None,
        }
    } else {
        None
    }
}

/// Reads a non-empty run of comma-separated records and the `]` that
/// closes the array; returns the records and what follows the bracket.
pub open spec fn p_records(s: Seq<char>) -> Option<(Seq<DepView>, Seq<char>)>
    decreases s.len(),
{
    match p_record(s) {
        Some((d, r)) => {
            let r1 = skip_ws(r);
            if r1.len() >= 1 && r1[0] == ']' {
                Some((seq![d], r1.skip(1)))
            } else if r1.len() >= 1 && r1[0] == ',' && r1.len() < s.len() {
                match p_records(r1.skip(1)) {
                    Some((ds, r2)) => Some((seq![d] + ds, r2)),
                    None => None,
                }
            } else {
                None
            }
        },
        None => None,
    }
}

/// Reads a whole manifest: the entire input must be one JSON array of
/// records as this format defines them, with whitespace allowed around
/// every token and around the document.
pub open spec fn p_manifest(s: Seq<char>) -> Option<Seq<DepView>> {
    let s0 = skip_ws(s);
    if s0.len() >= 1 && s0[0] == '[' {
        let s1 = skip_ws(s0.skip(1));
        if s1.len() >= 1 && s1[0] == ']' {
            if skip_ws(s1.skip(1)).len() == 0 {
                Some(Seq::empty())
            } else {
                None
            }
        } else {
            match p_records(s0.skip(1)) {
                Some((ds, r)) => if skip_ws(r).len() == 0 {
                    Some(ds)
                } else {
                    None
                },
                None => None,
            }
        }
    } else {
        None
    }
}

// ---------------------------------------------------------------------------
// Round trip: reading back what was written yields the records written
// ---------------------------------------------------------------------------

proof fn lemma_hex_round_trip(n: u8)
    requires
        n < 16,
    ensures
        hex_val(hex_char(n)) == Some(n),
{
}

/// Splitting the written form of a string: writing `s` escapes its first
/// character and then the rest.
proof fn lemma_esc_str_app(a: Seq<char>, b: Seq<char>)
    ensures
        esc_str(a + b) == esc_str(a) + esc_str(b),
    decreases a.len(),
{
    if a.len() == 0 {
        assert(a + b =~= b);
        assert(esc_str(a) + esc_str(b) =~= esc_str(b));
    } else {
        assert((a + b).skip(1) =~= a.skip(1) + b);
        lemma_esc_str_app(a.skip(1), b);
        assert(esc_char((a + b)[0]) + (esc_str(a.skip(1)) + esc_str(b)) =~= (esc_char(a[0])
            + esc_str(a.skip(1))) + esc_str(b));
    }
}

/// Reading a written string body finds exactly the content that was
/// written and stops exactly at the closing quote.
proof fn lemma_unesc_esc(s: Seq<char>, rest: Seq<char>)
    ensures
        unesc(esc_str(s) + seq!['"'] + rest) == Some((s, rest)),
    decreases s.len(),
{
    let t = esc_str(s) + seq!['"'] + rest;
    if s.len() == 0 {
        assert(t =~= seq!['"'] + rest);
        assert(t[0] == '"');
        assert(t.skip(1) =~= rest);
    } else {
        let c = s[0];
        let tail = esc_str(s.skip(1)) + seq!['"'] + rest;
        lemma_unesc_esc(s.skip(1), rest);
        assert(t =~= esc_char(c) + tail);
        assert(seq![c] + s.skip(1) =~= s);
        if c == '"' || c == '\\' || c == '\u{8}' || c == '\t' || c == '\n' || c == '\u{c}' || c
            == '\r' {
            assert(t[0] == '\\');
            assert(t[1] == esc_char(c)[1]);
            assert(simple_unesc(t[1]) == Some(c));
            assert(t.skip(2) =~= tail);
        } else if (c as u32) < 0x20 {
            let u = c as u32;
            let h1 = (u / 16) as u8;
            let h2 = (u % 16) as u8;
            assert(t[0] == '\\' && t[1] == 'u' && t[2] == '0' && t[3] == '0');
            assert(t[4] == hex_char(h1) && t[5] == hex_char(h2));
            lemma_hex_round_trip(h1);
            lemma_hex_round_trip(h2);
            assert(hex_val('0') == Some(0u8));
            assert(hex_val(t[4]) == Some(h1) && hex_val(t[5]) == Some(h2));
            vstd::arithmetic::div_mod::lemma_fundamental_div_mod(u as int, 16);
            assert(h1 * 16 + h2 == u);
            assert(hex4_val(t, 2) == Some(u));
            vstd::utf8::char_u32_cast(c, u);
            assert((u as char) == c);
            assert(t.skip(6) =~= tail);
        } else {
            assert(t[0] == c);
            assert(t[0] != '"' && t[0] != '\\' && (t[0] as u32) >= 0x20);
            assert(t.skip(1) =~= tail);
        }
    }
}

/// Reading a written quoted string.
proof fn lemma_p_string_ser(s: Seq<char>, rest: Seq<char>)
    ensures
        p_string(ser_string(s) + rest) == Some((s, rest)),
{
    let t = ser_string(s) + rest;
    assert(t[0] == '"');
    assert(t.skip(1) =~= esc_str(s) + seq!['"'] + rest);
    lemma_unesc_esc(s, rest);
}

/// Skipping whitespace moves nothing when nothing leads.
proof fn lemma_skip_ws_nonws(s: Seq<char>)
    requires
        s.len() == 0 || !is_json_ws(s[0]),
    ensures
        skip_ws(s) == s,
{
}

/// Reading a written member.
proof fn lemma_p_member_ser(k: Seq<char>, v: Seq<char>, rest: Seq<char>)
    ensures
        p_member(ser_string(k) + seq![':'] + ser_string(v) + rest) == Some(((k, v), rest)),
{
    let t = ser_string(k) + seq![':'] + ser_string(v) + rest;
    let r1 = seq![':'] + ser_string(v) + rest;
    let t2 = ser_string(v) + rest;
    assert(t[0] == '"');
    lemma_skip_ws_nonws(t);
    assert(t =~= ser_string(k) + r1);
    lemma_p_string_ser(k, r1);
    assert(r1[0] == ':');
    lemma_skip_ws_nonws(r1);
    assert(r1.skip(1) =~= t2);
    assert(t2[0] == '"');
    lemma_skip_ws_nonws(t2);
    lemma_p_string_ser(v, rest);
}

/// Reading a written record.
#[verifier::rlimit(100)]
proof fn lemma_p_record_ser(d: DepView, rest: Seq<char>)
    ensures
        p_record(ser_record(d) + rest) == Some((d, rest)),
{
    let t = ser_record(d) + rest;
    let m2rest = seq!['}'] + rest;
    let m1rest = seq![','] + ser_string(key_install()) + seq![':'] + ser_string(d.install_command)
        + m2rest;
    assert(t[0] == '{');
    lemma_skip_ws_nonws(t);
    assert(t.skip(1) =~= ser_string(key_folder()) + seq![':'] + ser_string(d.folder_name)
        + m1rest);
    lemma_p_member_ser(key_folder(), d.folder_name, m1rest);
    assert(m1rest[0] == ',');
    lemma_skip_ws_nonws(m1rest);
    assert(m1rest.skip(1) =~= ser_string(key_install()) + seq![':'] + ser_string(
        d.install_command,
    ) + m2rest);
    lemma_p_member_ser(key_install(), d.install_command, m2rest);
    assert(m2rest[0] == '}');
    lemma_skip_ws_nonws(m2rest);
    assert(m2rest.skip(1) =~= rest);
    assert(record_of_members((key_folder(), d.folder_name), (key_install(), d.install_command))
        == Some(d));
}

/// A written record is never empty (it opens with `{`).
proof fn lemma_ser_record_len(d: DepView)
    ensures
        ser_record(d).len() >= 13,
{
}

/// Reading a written run of records up to the closing bracket.
#[verifier::rlimit(100)]
proof fn lemma_p_records_ser(ds: Seq<DepView>, rest: Seq<char>)
    requires
        ds.len() >= 1,
    ensures
        p_records(ser_records(ds) + seq![']'] + rest) == Some((ds, rest)),
    decreases ds.len(),
{
    let t = ser_records(ds) + seq![']'] + rest;
    if ds.len() == 1 {
        let r = seq![']'] + rest;
        assert(t =~= ser_record(ds[0]) + r);
        lemma_p_record_ser(ds[0], r);
        assert(r[0] == ']');
        lemma_skip_ws_nonws(r);
        assert(r.skip(1) =~= rest);
        assert(seq![ds[0]] =~= ds);
    } else {
        let r = seq![','] + ser_records(ds.skip(1)) + seq![']'] + rest;
        assert(t =~= ser_record(ds[0]) + r);
        lemma_p_record_ser(ds[0], r);
        assert(r[0] == ',');
        lemma_skip_ws_nonws(r);
        lemma_ser_record_len(ds[0]);
        assert(t.len() == ser_record(ds[0]).len() + r.len());
        assert(r.len() < t.len());
        assert(r.skip(1) =~= ser_records(ds.skip(1)) + seq![']'] + rest);
        lemma_p_records_ser(ds.skip(1), rest);
        assert(seq![ds[0]] + ds.skip(1) =~= ds);
    }
}

/// Round trip: reading a written manifest yields exactly the records that
/// were written, however many there are and whatever their contents.
pub proof fn lemma_manifest_round_trip(ds: Seq<DepView>)
    ensures
        p_manifest(ser_manifest(ds)) == Some(ds),
{
    let t = ser_manifest(ds);
    assert(t[0] == '[');
    lemma_skip_ws_nonws(t);
    if ds.len() == 0 {
        assert(t =~= seq!['[', ']']);
        assert(t.skip(1) =~= seq![']']);
        lemma_skip_ws_nonws(t.skip(1));
        assert(t.skip(1).skip(1) =~= Seq::<char>::empty());
        lemma_skip_ws_nonws(Seq::<char>::empty());
        assert(Seq::<DepView>::empty() =~= ds);
    } else {
        lemma_ser_record_len(ds[0]);
        assert(ser_records(ds)[0] == ser_record(ds[0])[0]);
        assert(ser_record(ds[0])[0] == '{');
        assert(t.skip(1) =~= ser_records(ds) + seq![']'] + Seq::<char>::empty());
        assert(t.skip(1)[0] == '{');
        lemma_skip_ws_nonws(t.skip(1));
        lemma_p_records_ser(ds, Seq::<char>::empty());
        lemma_skip_ws_nonws(Seq::<char>::empty());
    }
}

// ---------------------------------------------------------------------------
// The writer
// ---------------------------------------------------------------------------

/// Writing a run of records one more record at a time.
proof fn lemma_ser_records_snoc(ds: Seq<DepView>, d: DepView)
    requires
        ds.len() >= 1,
    ensures
        ser_records(ds.push(d)) == ser_records(ds) + seq![','] + ser_record(d),
    decreases ds.len(),
{
    if ds.len() == 1 {
        assert(ds.push(d).skip(1) =~= seq![d]);
        assert(ser_records(seq![d]) == ser_record(d));
        assert(ser_record(ds[0]) + seq![','] + ser_record(d) =~= ser_records(ds) + seq![',']
            + ser_record(d));
    } else {
        assert(ds.push(d).skip(1) =~= ds.skip(1).push(d));
        lemma_ser_records_snoc(ds.skip(1), d);
        assert(ser_record(ds[0]) + seq![','] + (ser_records(ds.skip(1)) + seq![','] + ser_record(
            d,
        )) =~= (ser_record(ds[0]) + seq![','] + ser_records(ds.skip(1))) + seq![','] + ser_record(
            d,
        ));
    }
}

/// Writing a one-character string escapes just that character.
proof fn lemma_esc_str_singleton(c: char)
    ensures
        esc_str(seq![c]) == esc_char(c),
{
    assert(seq![c].skip(1) =~= Seq::<char>::empty());
    assert(esc_str(Seq::<char>::empty()) == Seq::<char>::empty());
    assert(esc_str(seq![c]) =~= esc_char(c));
}

/// The lower-case hex digit for `n`.
fn hex_char_exec(n: u8) -> (c: char)
    requires
        n < 16,
    ensures
        c == hex_char(n),
{
    if n < 10 {
        (n + 0x30) as char
    } else {
        (n + 0x57) as char
    }
}

/// Appends the written form of one character.
fn escape_into(out: &mut Vec<char>, c: char)
    ensures
        final(out)@ == old(out)@ + esc_char(c),
{
    if c == '"' {
        out.push('\\');
        out.push('"');
    } else if c == '\\' {
        out.push('\\');
        out.push('\\');
    } else if c == '\u{8}' {
        out.push('\\');
        out.push('b');
    } else if c == '\t' {
        out.push('\\');
        out.push('t');
    } else if c == '\n' {
        out.push('\\');
        out.push('n');
    } else if c == '\u{c}' {
        out.push('\\');
        out.push('f');
    } else if c == '\r' {
        out.push('\\');
        out.push('r');
    } else if (c as u32) < 0x20 {
        let u = c as u32;
        out.push('\\');
        out.push('u');
        out.push('0');
        out.push('0');
        out.push(hex_char_exec((u / 16) as u8));
        out.push(hex_char_exec((u % 16) as u8));
        proof {
            assert(out@ =~= old(out)@ + esc_char(c));
        }
    } else {
        out.push(c);
        proof {
            assert(out@ =~= old(out)@ + esc_char(c));
        }
    }
    proof {
        assert(out@ =~= old(out)@ + esc_char(c));
    }
}

/// Appends a quoted JSON string holding the characters of `s`.
fn write_string_into(out: &mut Vec<char>, s: &str)
    ensures
        final(out)@ == old(out)@ + ser_string(s@),
{
    let n = s.unicode_len();
    out.push('"');
    let mut i: usize = 0;
    while i < n
        invariant
            n == s@.len(),
            i <= n,
            out@ == old(out)@ + seq!['"'] + esc_str(s@.take(i as int)),
        decreases n - i,
    {
        escape_into(out, s.get_char(i));
        proof {
            assert(s@.take(i + 1 as int) =~= s@.take(i as int) + seq![s@[i as int]]);
            lemma_esc_str_app(s@.take(i as int), seq![s@[i as int]]);
            lemma_esc_str_singleton(s@[i as int]);
            assert(out@ =~= old(out)@ + seq!['"'] + esc_str(s@.take(i + 1 as int)));
        }
        i = i + 1;
    }
    out.push('"');
    proof {
        assert(s@.take(n as int) =~= s@);
        assert(out@ =~= old(out)@ + ser_string(s@));
    }
}

/// Appends the written form of one record.
fn write_record_into(out: &mut Vec<char>, d: &Dependency)
    ensures
        final(out)@ == old(out)@ + ser_record(d@),
{
    out.push('{');
    write_string_into(out, "folder_name");
    proof {
        reveal_strlit("folder_name");
        assert("folder_name"@ =~= key_folder());
    }
    out.push(':');
    write_string_into(out, d.folder_name.as_str());
    out.push(',');
    write_string_into(out, "install_command");
    proof {
        reveal_strlit("install_command");
        assert("install_command"@ =~= key_install());
    }
    out.push(':');
    write_string_into(out, d.install_command.as_str());
    out.push('}');
    proof {
        assert(out@ =~= old(out)@ + ser_record(d@));
    }
}

/// The manifest file's text for the given records: a JSON array with one
/// object per record, in order, exactly as the format above defines it.
pub fn serialize_manifest(deps: &Vec<Dependency>) -> (r: String)
    ensures
        r@ == ser_manifest(deps.deep_view()),
{
    let ghost dv = deps.deep_view();
    let mut out: Vec<char> = Vec::new();
    out.push('[');
    let mut i: usize = 0;
    while i < deps.len()
        invariant
            i <= deps.len(),
            dv == deps.deep_view(),
            dv.len() == deps.len(),
            forall|k: int| 0 <= k < deps.len() ==> dv[k] == deps[k]@,
            out@ == seq!['['] + ser_records(dv.take(i as int)),
        decreases deps.len() - i,
    {
        if i > 0 {
            out.push(',');
        }
        write_record_into(&mut out, &deps[i]);
        proof {
            assert(dv.take(i + 1 as int) =~= dv.take(i as int).push(dv[i as int]));
            if i > 0 {
                lemma_ser_records_snoc(dv.take(i as int), dv[i as int]);
                assert(out@ =~= seq!['['] + ser_records(dv.take(i + 1 as int)));
            } else {
                assert(dv.take(1) =~= seq![dv[0]]);
                assert(out@ =~= seq!['['] + ser_records(dv.take(1)));
            }
        }
        i = i + 1;
    }
    out.push(']');
    proof {
        assert(dv.take(deps.len() as int) =~= dv);
        assert(out@ =~= ser_manifest(dv));
    }
    string_of_chars(&out)
}

// ---------------------------------------------------------------------------
// The reader
// ---------------------------------------------------------------------------

/// Prefixes the content of a string-body reading with already-decoded
/// characters, leaving a failure a failure.
spec fn prepend_opt(p: Seq<char>, o: Option<(Seq<char>, Seq<char>)>) -> Option<
    (Seq<char>, Seq<char>),
> {
    match o {
        Some(cr) => Some((p + cr.0, cr.1)),
        None => None,
    }
}

proof fn lemma_prepend_opt_assoc(p1: Seq<char>, p2: Seq<char>, o: Option<(Seq<char>, Seq<char>)>)
    ensures
        prepend_opt(p1, prepend_opt(p2, o)) == prepend_opt(p1 + p2, o),
{
    match o {
        Some(cr) => {
            assert(p1 + (p2 + cr.0) =~= (p1 + p2) + cr.0);
        },
        None => {},
    }
}

proof fn lemma_skip_skip(s: Seq<char>, i: int, k: int)
    requires
        0 <= i,
        0 <= k,
        i + k <= s.len(),
    ensures
        s.skip(i).skip(k) == s.skip(i + k),
{
    assert(s.skip(i).skip(k) =~= s.skip(i + k));
}

/// The numeric value of a hex digit.
fn hexv(c: char) -> (r: Option<u8>)
    ensures
        r == hex_val(c),
        r matches Some(v) ==> v < 16,
{
    let u = c as u32;
    if 0x30 <= u && u <= 0x39 {
        Some((u - 0x30) as u8)
    } else if 0x61 <= u && u <= 0x66 {
        Some((u - 0x61 + 10) as u8)
    } else if 0x41 <= u && u <= 0x46 {
        Some((u - 0x41 + 10) as u8)
    } else {
        None
    }
}

/// The character a one-letter escape stands for.
fn simple_unescape(e: char) -> (r: Option<char>)
    ensures
        r == simple_unesc(e),
{
    if e == '"' {
        Some('"')
    } else if e == '\\' {
        Some('\\')
    } else if e == '/' {
        Some('/')
    } else if e == 'b' {
        Some('\u{8}')
    } else if e == 't' {
        Some('\t')
    } else if e == 'n' {
        Some('\n')
    } else if e == 'f' {
        Some('\u{c}')
    } else if e == 'r' {
        Some('\r')
    } else {
        None
    }
}

/// Relies on `char::from_u32`: for a Unicode scalar value (not a surrogate,
/// at most 0x10FFFF) it returns `Some` of the character with exactly that
/// value.
#[verifier::external_body]
fn char_from_u32(u: u32) -> (c: char)
    requires
        u < 0xD800 || (0xE000 <= u && u <= 0x10FFFF),
    ensures
        c as u32 == u,
{
    char::from_u32(u).unwrap()
}

/// Whether `c` is whitespace JSON allows between tokens.
fn json_ws(c: char) -> (b: bool)
    ensures
        b == is_json_ws(c),
{
    c == ' ' || c == '\t' || c == '\n' || c == '\r'
}

/// The position of the first non-whitespace character at or after `i`.
fn skip_ws_exec(s: &Vec<char>, i: usize) -> (j: usize)
    requires
        i <= s.len(),
    ensures
        i <= j <= s.len(),
        skip_ws(s@.skip(i as int)) == s@.skip(j as int),
{
    let mut j: usize = i;
    while j < s.len() && json_ws(s[j])
        invariant
            i <= j <= s.len(),
            skip_ws(s@.skip(i as int)) == skip_ws(s@.skip(j as int)),
        decreases s.len() - j,
    {
        proof {
            assert(s@.skip(j as int)[0] == s@[j as int]);
            lemma_skip_skip(s@, j as int, 1);
        }
        j = j + 1;
    }
    proof {
        let t = s@.skip(j as int);
        if t.len() > 0 {
            assert(t[0] == s@[j as int]);
        }
        assert(skip_ws(t) == t);
    }
    j
}

/// Reads a string body starting at `start` (just past the opening quote),
/// as `unesc` reads it.
fn unescape_str(s: &Vec<char>, start: usize) -> (r: Option<(Vec<char>, usize)>)
    requires
        start <= s.len(),
    ensures
        r matches Some(cj) ==> start <= cj.1 <= s.len() && unesc(s@.skip(start as int)) == Some(
            (cj.0@, s@.skip(cj.1 as int)),
        ),
        r is None ==> unesc(s@.skip(start as int)) is None,
{
    let mut i: usize = start;
    let mut acc: Vec<char> = Vec::new();
    loop
        invariant
            start <= i <= s.len(),
            unesc(s@.skip(start as int)) == prepend_opt(acc@, unesc(s@.skip(i as int))),
        decreases s.len() - i,
    {
        let ghost t = s@.skip(i as int);
        if i >= s.len() {
            assert(t.len() == 0);
            return None;
        }
        let c = s[i];
        assert(t[0] == c);
        if c == '"' {
            proof {
                lemma_skip_skip(s@, i as int, 1);
                assert(unesc(t) == Some((Seq::<char>::empty(), s@.skip(i + 1 as int))));
                assert(acc@ + Seq::<char>::empty() =~= acc@);
            }
            return Some((acc, i + 1));
        } else if c == '\\' {
            if i + 1 >= s.len() {
                assert(t.len() < 2);
                return None;
            }
            let e = s[i + 1];
            assert(t[1] == e);
            if e == 'u' {
                if s.len() - i < 6 {
                    assert(t.len() < 6);
                    return None;
                }
                assert(t.len() >= 6);
                assert(t[2] == s@[i + 2] && t[3] == s@[i + 3] && t[4] == s@[i + 4] && t[5] == s@[i
                    + 5]);
                let hs = (hexv(s[i + 2]), hexv(s[i + 3]), hexv(s[i + 4]), hexv(s[i + 5]));
                if let (Some(a), Some(b), Some(x), Some(y)) = hs {
                    let code: u32 = (a as u32) * 0x1000 + (b as u32) * 0x100 + (x as u32) * 16 + (
                    y as u32);
                    assert(hex4_val(t, 2) == Some(code));
                    if 0xD800 <= code && code <= 0xDBFF {
                        if s.len() - i < 12 {
                            assert(t.len() < 12);
                            assert(unesc(t) is None);
                            return None;
                        }
                        assert(t[6] == s@[i + 6] && t[7] == s@[i + 7] && t[8] == s@[i + 8] && t[9]
                            == s@[i + 9] && t[10] == s@[i + 10] && t[11] == s@[i + 11]);
                        if !(s[i + 6] == '\\' && s[i + 7] == 'u') {
                            assert(unesc(t) is None);
                            return None;
                        }
                        let ls = (hexv(s[i + 8]), hexv(s[i + 9]), hexv(s[i + 10]), hexv(
                            s[i + 11],
                        ));
                        if let (Some(l0), Some(l1), Some(l2), Some(l3)) = ls {
                            let low: u32 = (l0 as u32) * 0x1000 + (l1 as u32) * 0x100 + (l2 as u32)
                                * 16 + (l3 as u32);
                            assert(hex4_val(t, 8) == Some(low));
                            if 0xDC00 <= low && low <= 0xDFFF {
                                let scalar: u32 = 0x10000 + (code - 0xD800) * 0x400 + (low
                                    - 0xDC00);
                                let d = char_from_u32(scalar);
                                proof {
                                    vstd::utf8::char_u32_cast(d, scalar);
                                    lemma_skip_skip(s@, i as int, 12);
                                    assert(unesc(t) == prepend_opt(
                                        seq![d],
                                        unesc(s@.skip(i + 12)),
                                    ));
                                    lemma_prepend_opt_assoc(acc@, seq![d], unesc(s@.skip(i + 12)));
                                    assert(acc@ + seq![d] =~= acc@.push(d));
                                }
                                acc.push(d);
                                i = i + 12;
                            } else {
                                assert(unesc(t) is None);
                                return None;
                            }
                        } else {
                            assert(hex4_val(t, 8) is None);
                            assert(unesc(t) is None);
                            return None;
                        }
                    } else if 0xDC00 <= code && code <= 0xDFFF {
                        assert(unesc(t) is None);
                        return None;
                    } else {
                        let d = char_from_u32(code);
                        proof {
                            vstd::utf8::char_u32_cast(d, code);
                            lemma_skip_skip(s@, i as int, 6);
                            assert(unesc(t) == prepend_opt(seq![d], unesc(s@.skip(i + 6))));
                            lemma_prepend_opt_assoc(acc@, seq![d], unesc(s@.skip(i + 6)));
                            assert(acc@ + seq![d] =~= acc@.push(d));
                        }
                        acc.push(d);
                        i = i + 6;
                    }
                } else {
                    assert(hex4_val(t, 2) is None);
                    assert(unesc(t) is None);
                    return None;
                }
            } else {
                match simple_unescape(e) {
                    Some(d) => {
                        proof {
                            lemma_skip_skip(s@, i as int, 2);
                            assert(unesc(t) == prepend_opt(seq![d], unesc(s@.skip(i + 2))));
                            lemma_prepend_opt_assoc(acc@, seq![d], unesc(s@.skip(i + 2)));
                            assert(acc@ + seq![d] =~= acc@.push(d));
                        }
                        acc.push(d);
                        i = i + 2;
                    },
                    None => {
                        assert(unesc(t) is None);
                        return None;
                    },
                }
            }
        } else if (c as u32) < 0x20 {
            assert(unesc(t) is None);
            return None;
        } else {
            proof {
                lemma_skip_skip(s@, i as int, 1);
                assert(unesc(t) == prepend_opt(seq![c], unesc(s@.skip(i + 1))));
                lemma_prepend_opt_assoc(acc@, seq![c], unesc(s@.skip(i + 1)));
                assert(acc@ + seq![c] =~= acc@.push(c));
            }
            acc.push(c);
            i = i + 1;
        }
    }
}

/// Reads a quoted string starting at `i`, as `p_string` reads it.
fn parse_string(s: &Vec<char>, i: usize) -> (r: Option<(Vec<char>, usize)>)
    requires
        i <= s.len(),
    ensures
        r matches Some(cj) ==> i < cj.1 <= s.len() && p_string(s@.skip(i as int)) == Some(
            (cj.0@, s@.skip(cj.1 as int)),
        ),
        r is None ==> p_string(s@.skip(i as int)) is None,
{
    let ghost t = s@.skip(i as int);
    if i < s.len() && s[i] == '"' {
        assert(t[0] == '"');
        proof {
            lemma_skip_skip(s@, i as int, 1);
        }
        unescape_str(s, i + 1)
    } else {
        assert(t.len() == 0 || t[0] != '"');
        None
    }
}

/// True iff `v` holds exactly the characters of `lit`.
fn chars_eq_str(v: &Vec<char>, lit: &str) -> (b: bool)
    ensures
        b == (v@ == lit@),
{
    let s = string_of_chars(v);
    let t = lit.to_owned();
    s.eq(&t)
}

/// Reads one member starting at `i`, as `p_member` reads it: whitespace, a
/// key string, whitespace, `:`, whitespace, a value string.
fn parse_member(s: &Vec<char>, i: usize) -> (r: Option<(Vec<char>, Vec<char>, usize)>)
    requires
        i <= s.len(),
    ensures
        r matches Some(m) ==> i < m.2 <= s.len() && p_member(s@.skip(i as int)) == Some(
            ((m.0@, m.1@), s@.skip(m.2 as int)),
        ),
        r is None ==> p_member(s@.skip(i as int)) is None,
{
    let j0 = skip_ws_exec(s, i);
    let (k, j1) = match parse_string(s, j0) {
        Some(kj) => kj,
        None => {
            return None;
        },
    };
    let j2 = skip_ws_exec(s, j1);
    if !(j2 < s.len() && s[j2] == ':') {
        proof {
            let r2 = s@.skip(j2 as int);
            assert(r2.len() == 0 || r2[0] != ':');
        }
        return None;
    }
    assert(s@.skip(j2 as int)[0] == ':');
    proof {
        lemma_skip_skip(s@, j2 as int, 1);
    }
    let j3 = skip_ws_exec(s, j2 + 1);
    let (v, j4) = match parse_string(s, j3) {
        Some(vj) => vj,
        None => {
            return None;
        },
    };
    Some((k, v, j4))
}

/// Reads one record object starting at `i`, as `p_record` reads it: `{`,
/// the two members in either order, `}`.
#[verifier::rlimit(100)]
fn parse_record(s: &Vec<char>, i: usize) -> (r: Option<(Dependency, usize)>)
    requires
        i <= s.len(),
    ensures
        r matches Some(dj) ==> i < dj.1 <= s.len() && p_record(s@.skip(i as int)) == Some(
            (dj.0@, s@.skip(dj.1 as int)),
        ),
        r is None ==> p_record(s@.skip(i as int)) is None,
{
    proof {
        reveal_strlit("folder_name");
        assert("folder_name"@ =~= key_folder());
        reveal_strlit("install_command");
        assert("install_command"@ =~= key_install());
    }
    let j0 = skip_ws_exec(s, i);
    if !(j0 < s.len() && s[j0] == '{') {
        proof {
            let s0 = s@.skip(j0 as int);
            assert(s0.len() == 0 || s0[0] != '{');
        }
        return None;
    }
    assert(s@.skip(j0 as int)[0] == '{');
    proof {
        lemma_skip_skip(s@, j0 as int, 1);
    }
    let (k1, v1, j1) = match parse_member(s, j0 + 1) {
        Some(m) => m,
        None => {
            return None;
        },
    };
    let j2 = skip_ws_exec(s, j1);
    if !(j2 < s.len() && s[j2] == ',') {
        proof {
            let r2 = s@.skip(j2 as int);
            assert(r2.len() == 0 || r2[0] != ',');
        }
        return None;
    }
    assert(s@.skip(j2 as int)[0] == ',');
    proof {
        lemma_skip_skip(s@, j2 as int, 1);
    }
    let (k2, v2, j3) = match parse_member(s, j2 + 1) {
        Some(m) => m,
        None => {
            return None;
        },
    };
    let j4 = skip_ws_exec(s, j3);
    if !(j4 < s.len() && s[j4] == '}') {
        proof {
            let r4 = s@.skip(j4 as int);
            assert(r4.len() == 0 || r4[0] != '}');
        }
        return None;
    }
    assert(s@.skip(j4 as int)[0] == '}');
    proof {
        lemma_skip_skip(s@, j4 as int, 1);
    }
    let k1_folder = chars_eq_str(&k1, "folder_name");
    let k2_install = chars_eq_str(&k2, "install_command");
    if k1_folder && k2_install {
        let d = Dependency {
            folder_name: string_of_chars(&v1),
            install_command: string_of_chars(&v2),
        };
        return Some((d, j4 + 1));
    }
    let k1_install = chars_eq_str(&k1, "install_command");
    let k2_folder = chars_eq_str(&k2, "folder_name");
    if k1_install && k2_folder {
        let d = Dependency {
            folder_name: string_of_chars(&v2),
            install_command: string_of_chars(&v1),
        };
        return Some((d, j4 + 1));
    }
    proof {
        assert(record_of_members((k1@, v1@), (k2@, v2@)) is None);
    }
    None
}

/// Reads a non-empty run of records and the closing `]`, as `p_records`
/// reads it.
fn parse_records(s: &Vec<char>, i: usize) -> (r: Option<(Vec<Dependency>, usize)>)
    requires
        i <= s.len(),
    ensures
        r matches Some(dj) ==> i < dj.1 <= s.len() && p_records(s@.skip(i as int)) == Some(
            (dj.0.deep_view(), s@.skip(dj.1 as int)),
        ),
        r is None ==> p_records(s@.skip(i as int)) is None,
    decreases s.len() - i,
{
    let (d, j) = match parse_record(s, i) {
        Some(dj) => dj,
        None => {
            return None;
        },
    };
    let j1 = skip_ws_exec(s, j);
    let ghost rec = s@.skip(j1 as int);
    if j1 < s.len() && s[j1] == ']' {
        assert(rec[0] == ']');
        proof {
            lemma_skip_skip(s@, j1 as int, 1);
        }
        let mut out: Vec<Dependency> = Vec::new();
        let ghost dv = d@;
        out.push(d);
        proof {
            assert(out.deep_view() =~= seq![dv]);
        }
        Some((out, j1 + 1))
    } else if j1 < s.len() && s[j1] == ',' {
        assert(rec[0] == ',');
        assert(rec.len() < s@.skip(i as int).len());
        proof {
            lemma_skip_skip(s@, j1 as int, 1);
        }
        match parse_records(s, j1 + 1) {
            Some(dsj) => {
                let (mut ds, j2) = dsj;
                let ghost tail = ds.deep_view();
                let ghost dv = d@;
                ds.insert(0, d);
                proof {
                    assert(ds.deep_view() =~= seq![dv] + tail);
                }
                Some((ds, j2))
            },
            None => None,
        }
    } else {
        assert(rec.len() == 0 || (rec[0] != ']' && rec[0] != ','));
        None
    }
}

/// Reads a manifest file's text. Returns the records iff the whole text is
/// one JSON array of records as this format defines them (`p_manifest`),
/// and `None` on any other text.
pub fn parse_manifest(text: &str) -> (r: Option<Vec<Dependency>>)
    ensures
        r matches Some(v) ==> p_manifest(text@) == Some(v.deep_view()),
        r is None ==> p_manifest(text@) is None,
{
    let cs = chars_of(text);
    proof {
        assert(cs@.skip(0) =~= cs@);
    }
    let i0 = skip_ws_exec(&cs, 0);
    if !(i0 < cs.len() && cs[i0] == '[') {
        proof {
            let s0 = cs@.skip(i0 as int);
            assert(s0.len() == 0 || s0[0] != '[');
        }
        return None;
    }
    assert(cs@.skip(i0 as int)[0] == '[');
    proof {
        lemma_skip_skip(cs@, i0 as int, 1);
    }
    let i1 = skip_ws_exec(&cs, i0 + 1);
    if i1 < cs.len() && cs[i1] == ']' {
        assert(cs@.skip(i1 as int)[0] == ']');
        proof {
            lemma_skip_skip(cs@, i1 as int, 1);
        }
        let i2 = skip_ws_exec(&cs, i1 + 1);
        if i2 == cs.len() {
            assert(cs@.skip(i2 as int).len() == 0);
            let out: Vec<Dependency> = Vec::new();
            proof {
                assert(out.deep_view() =~= Seq::<DepView>::empty());
            }
            Some(out)
        } else {
            assert(cs@.skip(i2 as int).len() != 0);
            None
        }
    } else {
        proof {
            let s1 = cs@.skip(i1 as int);
            assert(s1.len() == 0 || s1[0] != ']');
        }
        match parse_records(&cs, i0 + 1) {
            Some(dsj) => {
                let (ds, j) = dsj;
                let j2 = skip_ws_exec(&cs, j);
                if j2 == cs.len() {
                    assert(cs@.skip(j2 as int).len() == 0);
                    Some(ds)
                } else {
                    assert(cs@.skip(j2 as int).len() != 0);
                    None
                }
            },
            None => None,
        }
    }
}

} // verus!
