use vstd::prelude::*;
use vstd::string::*;

use crate::document::{channels_view, json_safe, uuid_format, UserMeta, UserMetaView};

verus! {

/// Why a document text was rejected. Exactly one variant per failure class:
/// malformed text, a repeated field or channel name, a missing required
/// field, a number that does not fit, an identifier in the wrong format, and
/// a schema version other than the supported one.
#[derive(Clone, Copy, Debug, PartialEq, Eq, Structural)]
pub enum ParseError {
    Syntax,
    DuplicateField,
    MissingField,
    InvalidNumber,
    InvalidUuid,
    VersionMismatch,
}

/// The schema version this reader understands.
pub open spec fn supported_version() -> u64 {
    1
}

// ---------------------------------------------------------------------------
// Serialization: the canonical textual form of a document.
// ---------------------------------------------------------------------------
pub open spec fn escape_char(c: char) -> Seq<char> {
    if c == '"' || c == '\\' {
        seq!['\\', c]
    } else {
        seq![c]
    }
}

pub open spec fn json_escape(s: Seq<char>) -> Seq<char>
    decreases s.len(),
{
    if s.len() == 0 {
        Seq::empty()
    } else {
        escape_char(s[0]) + json_escape(s.drop_first())
    }
}

pub open spec fn quoted(s: Seq<char>) -> Seq<char> {
    seq!['"'] + json_escape(s) + seq!['"']
}

pub open spec fn dec_digit(d: u64) -> char {
    if d == 0 {
        '0'
    } else if d == 1 {
        '1'
    } else if d == 2 {
        '2'
    } else if d == 3 {
        '3'
    } else if d == 4 {
        '4'
    } else if d == 5 {
        '5'
    } else if d == 6 {
        '6'
    } else if d == 7 {
        '7'
    } else if d == 8 {
        '8'
    } else {
        '9'
    }
}

/// Decimal digits of a number, most significant first.
pub open spec fn dec_rep(n: u64) -> Seq<char>
    decreases n,
{
    if n < 10 {
        seq![dec_digit(n)]
    } else {
        dec_rep(n / 10) + seq![dec_digit(n % 10)]
    }
}

pub open spec fn entry_json(e: (Seq<char>, Seq<char>)) -> Seq<char> {
    quoted(e.0) + seq![':'] + quoted(e.1)
}

/// The entries from position `k` on, each preceded by a separating comma.
pub open spec fn tail_entries_json(cs: Seq<(Seq<char>, Seq<char>)>, k: int) -> Seq<char>
    decreases cs.len() - k,
{
    if k < 0 || k >= cs.len() {
        Seq::empty()
    } else {
        seq![','] + entry_json(cs[k]) + tail_entries_json(cs, k + 1)
    }
}

pub open spec fn entries_json(cs: Seq<(Seq<char>, Seq<char>)>) -> Seq<char> {
    if cs.len() == 0 {
        Seq::empty()
    } else {
        entry_json(cs[0]) + tail_entries_json(cs, 1)
    }
}

pub open spec fn channels_field_json(c: Option<Seq<(Seq<char>, Seq<char>)>>) -> Seq<char> {
    match c {
        None => Seq::empty(),
        Some(cs) => quoted("channels"@) + seq![':', '{'] + entries_json(cs) + seq!['}', ','],
    }
}

/// The canonical text of a document, with an explicit schema version tag.
pub open spec fn spec_serialize(v: UserMetaView, version: u64) -> Seq<char> {
    seq!['{'] + channels_field_json(v.channels) + quoted("floxClientUUID"@) + seq![':']
        + quoted(v.client_uuid) + seq![','] + quoted("floxMetricsConsent"@) + seq![':'] + dec_rep(
        v.metrics_consent as u64,
    ) + seq![','] + quoted("version"@) + seq![':'] + dec_rep(version) + seq!['}']
}

/// Relies on `String: FromIterator<char>` through `Iterator::collect`: the
/// returned string holds exactly the characters of the vector, in order.
#[verifier::external_body]
fn chars_to_string(v: &Vec<char>) -> (r: String)
    ensures
        r@ == v@,
{
    v.iter().collect()
}

proof fn lemma_json_escape_push(s: Seq<char>, c: char)
    ensures
        json_escape(s.push(c)) == json_escape(s) + escape_char(c),
    decreases s.len(),
{
    if s.len() == 0 {
        assert(s.push(c).drop_first() =~= Seq::<char>::empty());
        assert(s.push(c)[0] == c);
        assert(json_escape(Seq::<char>::empty()) == Seq::<char>::empty());
        assert(json_escape(s.push(c)) =~= escape_char(c));
        assert(json_escape(s) + escape_char(c) =~= escape_char(c));
    } else {
        lemma_json_escape_push(s.drop_first(), c);
        assert(s.push(c).drop_first() =~= s.drop_first().push(c));
        assert(s.push(c)[0] == s[0]);
        assert(json_escape(s.push(c)) == escape_char(s[0]) + (json_escape(s.drop_first())
            + escape_char(c)));
        assert(escape_char(s[0]) + (json_escape(s.drop_first()) + escape_char(c)) =~= (escape_char(
            s[0],
        ) + json_escape(s.drop_first())) + escape_char(c));
    }
}

/// Appends the escaped body of `s` (no surrounding quotes).
fn push_escaped(out: &mut Vec<char>, s: &str)
    ensures
        final(out)@ == old(out)@ + json_escape(s@),
{
    let n = s.unicode_len();
    let mut k: usize = 0;
    while k < n
        invariant
            0 <= k <= n,
            n == s@.len(),
            out@ == old(out)@ + json_escape(s@.subrange(0, k as int)),
        decreases n - k,
    {
        let c = s.get_char(k);
        proof {
            lemma_json_escape_push(s@.subrange(0, k as int), c);
            assert(s@.subrange(0, k as int).push(c) =~= s@.subrange(0, k as int + 1));
        }
        if c == '"' || c == '\\' {
            out.push('\\');
            out.push(c);
            proof {
                assert(out@ =~= old(out)@ + json_escape(s@.subrange(0, k as int + 1)));
            }
        } else {
            out.push(c);
            proof {
                assert(out@ =~= old(out)@ + json_escape(s@.subrange(0, k as int + 1)));
            }
        }
        k += 1;
    }
    proof {
        assert(s@.subrange(0, n as int) =~= s@);
    }
}

/// Appends `s` as a JSON string literal.
fn push_quoted(out: &mut Vec<char>, s: &str)
    ensures
        final(out)@ == old(out)@ + quoted(s@),
{
    out.push('"');
    push_escaped(out, s);
    out.push('"');
    proof {
        assert(out@ =~= old(out)@ + quoted(s@));
    }
}

fn dec_digit_exec(d: u64) -> (c: char)
    requires
        d < 10,
    ensures
        c == dec_digit(d),
{
    if d == 0 {
        '0'
    } else if d == 1 {
        '1'
    } else if d == 2 {
        '2'
    } else if d == 3 {
        '3'
    } else if d == 4 {
        '4'
    } else if d == 5 {
        '5'
    } else if d == 6 {
        '6'
    } else if d == 7 {
        '7'
    } else if d == 8 {
        '8'
    } else {
        '9'
    }
}

/// Appends the decimal digits of a byte-sized number.
fn push_u8_dec(out: &mut Vec<char>, n: u8)
    ensures
        final(out)@ == old(out)@ + dec_rep(n as u64),
{
    let w: u64 = n as u64;
    if w >= 100 {
        out.push(dec_digit_exec(w / 100));
        out.push(dec_digit_exec((w / 10) % 10));
        out.push(dec_digit_exec(w % 10));
        proof {
            assert(dec_rep(w) == dec_rep(w / 10) + seq![dec_digit(w % 10)]);
            assert(dec_rep(w / 10) == dec_rep(w / 100) + seq![dec_digit((w / 10) % 10)]) by {
                assert((w / 10) / 10 == w / 100);
            }
            assert(dec_rep(w / 100) == seq![dec_digit(w / 100)]);
            assert(out@ =~= old(out)@ + dec_rep(w));
        }
    } else if w >= 10 {
        out.push(dec_digit_exec(w / 10));
        out.push(dec_digit_exec(w % 10));
        proof {
            assert(dec_rep(w) == dec_rep(w / 10) + seq![dec_digit(w % 10)]);
            assert(dec_rep(w / 10) == seq![dec_digit(w / 10)]);
            assert(out@ =~= old(out)@ + dec_rep(w));
        }
    } else {
        out.push(dec_digit_exec(w));
        proof {
            assert(out@ =~= old(out)@ + dec_rep(w));
        }
    }
}

/// Appends `,"name":"locator"` for every entry from `k` on.
fn push_tail_entries(out: &mut Vec<char>, cs: &Vec<(String, String)>, k: usize)
    requires
        k <= cs@.len(),
    ensures
        final(out)@ == old(out)@ + tail_entries_json(channels_view(cs@), k as int),
    decreases cs@.len() - k,
{
    if k < cs.len() {
        out.push(',');
        push_quoted(out, cs[k].0.as_str());
        out.push(':');
        push_quoted(out, cs[k].1.as_str());
        push_tail_entries(out, cs, k + 1);
        proof {
            assert(channels_view(cs@)[k as int] == (cs@[k as int].0@, cs@[k as int].1@));
            assert(out@ =~= old(out)@ + tail_entries_json(channels_view(cs@), k as int));
        }
    } else {
        proof {
            assert(out@ =~= old(out)@ + tail_entries_json(channels_view(cs@), k as int));
        }
    }
}

/// Renders a document in its canonical form, carrying the supported schema
/// version tag.
pub fn serialize(m: &UserMeta) -> (r: String)
    ensures
        r@ == spec_serialize(m@, supported_version()),
{
    let mut out: Vec<char> = Vec::new();
    out.push('{');
    match m.channels() {
        None => {
            proof {
                assert(out@ =~= seq!['{'] + channels_field_json(m@.channels));
            }
        },
        Some(cs) => {
            push_quoted(&mut out, "channels");
            out.push(':');
            out.push('{');
            if cs.len() > 0 {
                push_quoted(&mut out, cs[0].0.as_str());
                out.push(':');
                push_quoted(&mut out, cs[0].1.as_str());
                proof {
                    assert(channels_view(cs@)[0] == (cs@[0].0@, cs@[0].1@));
                }
                push_tail_entries(&mut out, cs, 1);
            }
            out.push('}');
            out.push(',');
            proof {
                assert(out@ =~= seq!['{'] + channels_field_json(m@.channels));
            }
        },
    }
    push_quoted(&mut out, "floxClientUUID");
    out.push(':');
    push_quoted(&mut out, m.client_uuid().as_str());
    out.push(',');
    push_quoted(&mut out, "floxMetricsConsent");
    out.push(':');
    push_u8_dec(&mut out, m.metrics_consent());
    out.push(',');
    push_quoted(&mut out, "version");
    out.push(':');
    out.push('1');
    out.push('}');
    proof {
        assert(dec_rep(supported_version()) =~= seq!['1']);
        assert(out@ =~= spec_serialize(m@, supported_version()));
    }
    chars_to_string(&out)
}

// ---------------------------------------------------------------------------
// Parsing: a tolerant reader for the same document format. Whitespace is
// allowed between tokens, fields may come in any order, and unknown fields
// are skipped; the required fields must each appear exactly once.
// ---------------------------------------------------------------------------
pub open spec fn is_ws(c: char) -> bool {
    c == ' ' || c == '\n' || c == '\t' || c == '\r'
}

pub open spec fn spec_skip_ws(s: Seq<char>, i: int) -> int
    decreases s.len() - i,
{
    if 0 <= i < s.len() && is_ws(s[i]) {
        spec_skip_ws(s, i + 1)
    } else {
        i
    }
}

/// The escapes this reader accepts: exactly those whose unescaped character
/// is itself a printable JSON character.
pub open spec fn unescape_char(c: char) -> Option<char> {
    if c == '"' || c == '\\' || c == '/' {
        Some(c)
    } else {
        None
    }
}

/// Reads a string literal from just after its opening quote; yields the
/// unescaped content and the position after the closing quote.
pub open spec fn spec_string_body(s: Seq<char>, i: int) -> Result<(Seq<char>, int), ParseError>
    decreases s.len() - i,
{
    if i < 0 || i >= s.len() {
        Err(ParseError::Syntax)
    } else if s[i] == '"' {
        Ok((Seq::empty(), i + 1))
    } else if s[i] == '\\' {
        if i + 1 >= s.len() {
            Err(ParseError::Syntax)
        } else {
            match unescape_char(s[i + 1]) {
                None => Err(ParseError::Syntax),
                Some(u) => match spec_string_body(s, i + 2) {
                    Ok(p) => Ok((seq![u] + p.0, p.1)),
                    Err(e) => Err(e),
                },
            }
        }
    } else if (s[i] as u32) < 32 {
        Err(ParseError::Syntax)
    } else {
        match spec_string_body(s, i + 1) {
            Ok(p) => Ok((seq![s[i]] + p.0, p.1)),
            Err(e) => Err(e),
        }
    }
}

pub open spec fn is_digit(c: char) -> bool {
    '0' <= c && c <= '9'
}

pub open spec fn digit_val(c: char) -> u64 {
    ((c as u32) - ('0' as u32)) as u64
}

pub open spec fn spec_number_rec(s: Seq<char>, i: int, acc: u64) -> Result<(u64, int), ParseError>
    decreases s.len() - i,
{
    if i < 0 || i >= s.len() || !is_digit(s[i]) {
        Ok((acc, i))
    } else {
        let d = digit_val(s[i]);
        if acc > (0xffff_ffff_ffff_ffffu64 - d) / 10 {
            Err(ParseError::InvalidNumber)
        } else {
            spec_number_rec(s, i + 1, (acc * 10 + d) as u64)
        }
    }
}

/// Reads an unsigned decimal number.
pub open spec fn spec_number(s: Seq<char>, i: int) -> Result<(u64, int), ParseError> {
    if 0 <= i < s.len() && is_digit(s[i]) {
        spec_number_rec(s, i, 0)
    } else {
        Err(ParseError::Syntax)
    }
}

/// Skips a quoted string without interpreting it.
pub open spec fn spec_skip_str_lit(s: Seq<char>, i: int) -> Result<int, ParseError>
    decreases s.len() - i,
{
    if i < 0 || i >= s.len() {
        Err(ParseError::Syntax)
    } else if s[i] == '"' {
        Ok(i + 1)
    } else if s[i] == '\\' {
        if i + 2 <= s.len() {
            spec_skip_str_lit(s, i + 2)
        } else {
            Err(ParseError::Syntax)
        }
    } else {
        spec_skip_str_lit(s, i + 1)
    }
}

/// Skips a bracketed composite, tracking nesting depth; entered just after
/// the opening bracket with depth 1.
pub open spec fn spec_skip_brackets(s: Seq<char>, i: int, depth: nat) -> Result<int, ParseError>
    decreases s.len() - i,
{
    if i < 0 || i >= s.len() {
        Err(ParseError::Syntax)
    } else if s[i] == '"' {
        spec_skip_in_string(s, i + 1, depth)
    } else if s[i] == '{' || s[i] == '[' {
        spec_skip_brackets(s, i + 1, depth + 1)
    } else if s[i] == '}' || s[i] == ']' {
        if depth <= 1 {
            Ok(i + 1)
        } else {
            spec_skip_brackets(s, i + 1, (depth - 1) as nat)
        }
    } else {
        spec_skip_brackets(s, i + 1, depth)
    }
}

pub open spec fn spec_skip_in_string(s: Seq<char>, i: int, depth: nat) -> Result<int, ParseError>
    decreases s.len() - i,
{
    if i < 0 || i >= s.len() {
        Err(ParseError::Syntax)
    } else if s[i] == '"' {
        spec_skip_brackets(s, i + 1, depth)
    } else if s[i] == '\\' {
        if i + 2 <= s.len() {
            spec_skip_in_string(s, i + 2, depth)
        } else {
            Err(ParseError::Syntax)
        }
    } else {
        spec_skip_in_string(s, i + 1, depth)
    }
}

pub open spec fn spec_skip_scalar(s: Seq<char>, i: int) -> int
    decreases s.len() - i,
{
    if 0 <= i < s.len() && !is_ws(s[i]) && s[i] != ',' && s[i] != '}' && s[i] != ']' {
        spec_skip_scalar(s, i + 1)
    } else {
        i
    }
}

/// Skips one JSON value of any shape.
pub open spec fn spec_skip_value(s: Seq<char>, i: int) -> Result<int, ParseError> {
    if i < 0 || i >= s.len() {
        Err(ParseError::Syntax)
    } else if s[i] == '"' {
        spec_skip_str_lit(s, i + 1)
    } else if s[i] == '{' || s[i] == '[' {
        spec_skip_brackets(s, i + 1, 1)
    } else {
        let j = spec_skip_scalar(s, i);
        if j > i {
            Ok(j)
        } else {
            Err(ParseError::Syntax)
        }
    }
}

/// The fields gathered while walking the document object.
pub struct PartialV {
    pub channels: Option<Option<Seq<(Seq<char>, Seq<char>)>>>,
    pub client_uuid: Option<Seq<char>>,
    pub metrics_consent: Option<u64>,
    pub version: Option<u64>,
}

pub open spec fn empty_partial() -> PartialV {
    PartialV { channels: None, client_uuid: None, metrics_consent: None, version: None }
}

pub open spec fn contains_name(cs: Seq<(Seq<char>, Seq<char>)>, n: Seq<char>) -> bool {
    exists|k: int| 0 <= k < cs.len() && (#[trigger] cs[k]).0 == n
}

/// Reads the members of the channel table, entered just after `{` or a
/// separating comma. A repeated channel name is rejected.
pub open spec fn spec_channels_members(
    s: Seq<char>,
    i: int,
    acc: Seq<(Seq<char>, Seq<char>)>,
) -> Result<(Seq<(Seq<char>, Seq<char>)>, int), ParseError>
    decreases s.len() - i,
{
    let j = spec_skip_ws(s, i);
    if j >= s.len() {
        Err(ParseError::Syntax)
    } else if s[j] == '}' {
        if acc.len() == 0 {
            Ok((acc, j + 1))
        } else {
            Err(ParseError::Syntax)
        }
    } else if s[j] != '"' {
        Err(ParseError::Syntax)
    } else {
        match spec_string_body(s, j + 1) {
            Err(e) => Err(e),
            Ok(name_p) => {
                if contains_name(acc, name_p.0) {
                    Err(ParseError::DuplicateField)
                } else {
                    let j3 = spec_skip_ws(s, name_p.1);
                    if j3 >= s.len() || s[j3] != ':' {
                        Err(ParseError::Syntax)
                    } else {
                        let j4 = spec_skip_ws(s, j3 + 1);
                        if j4 >= s.len() || s[j4] != '"' {
                            Err(ParseError::Syntax)
                        } else {
                            match spec_string_body(s, j4 + 1) {
                                Err(e) => Err(e),
                                Ok(loc_p) => {
                                    let acc2 = acc.push((name_p.0, loc_p.0));
                                    let j6 = spec_skip_ws(s, loc_p.1);
                                    if j6 >= s.len() {
                                        Err(ParseError::Syntax)
                                    } else if s[j6] == ',' {
                                        if i < j6 + 1 <= s.len() {
                                            spec_channels_members(s, j6 + 1, acc2)
                                        } else {
                                            Err(ParseError::Syntax)
                                        }
                                    } else if s[j6] == '}' {
                                        Ok((acc2, j6 + 1))
                                    } else {
                                        Err(ParseError::Syntax)
                                    }
                                },
                            }
                        }
                    }
                }
            },
        }
    }
}

/// Reads the value of one document field, dispatching on the field name;
/// an unrecognized field's value is skipped.
pub open spec fn spec_field(s: Seq<char>, i: int, name: Seq<char>, acc: PartialV) -> Result<
    (PartialV, int),
    ParseError,
> {
    if name == "channels"@ {
        if acc.channels is Some {
            Err(ParseError::DuplicateField)
        } else if 0 <= i < s.len() && s[i] == '{' {
            match spec_channels_members(s, i + 1, Seq::empty()) {
                Ok(p) => Ok((PartialV { channels: Some(Some(p.0)), ..acc }, p.1)),
                Err(e) => Err(e),
            }
        } else if 0 <= i && i + 4 <= s.len() && s[i] == 'n' && s[i + 1] == 'u' && s[i + 2] == 'l'
            && s[i + 3] == 'l' {
            Ok((PartialV { channels: Some(None), ..acc }, i + 4))
        } else {
            Err(ParseError::Syntax)
        }
    } else if name == "floxClientUUID"@ {
        if acc.client_uuid is Some {
            Err(ParseError::DuplicateField)
        } else if 0 <= i < s.len() && s[i] == '"' {
            match spec_string_body(s, i + 1) {
                Ok(p) => Ok((PartialV { client_uuid: Some(p.0), ..acc }, p.1)),
                Err(e) => Err(e),
            }
        } else {
            Err(ParseError::Syntax)
        }
    } else if name == "floxMetricsConsent"@ {
        if acc.metrics_consent is Some {
            Err(ParseError::DuplicateField)
        } else {
            match spec_number(s, i) {
                Ok(p) => Ok((PartialV { metrics_consent: Some(p.0), ..acc }, p.1)),
                Err(e) => Err(e),
            }
        }
    } else if name == "version"@ {
        if acc.version is Some {
            Err(ParseError::DuplicateField)
        } else {
            match spec_number(s, i) {
                Ok(p) => Ok((PartialV { version: Some(p.0), ..acc }, p.1)),
                Err(e) => Err(e),
            }
        }
    } else {
        match spec_skip_value(s, i) {
            Ok(j) => Ok((acc, j)),
            Err(e) => Err(e),
        }
    }
}

/// Reads the members of the document object, entered just after `{` or a
/// separating comma.
pub open spec fn spec_members(s: Seq<char>, i: int, acc: PartialV, first: bool) -> Result<
    (PartialV, int),
    ParseError,
>
    decreases s.len() - i,
{
    let j = spec_skip_ws(s, i);
    if j >= s.len() {
        Err(ParseError::Syntax)
    } else if s[j] == '}' {
        if first {
            Ok((acc, j + 1))
        } else {
            Err(ParseError::Syntax)
        }
    } else if s[j] != '"' {
        Err(ParseError::Syntax)
    } else {
        match spec_string_body(s, j + 1) {
            Err(e) => Err(e),
            Ok(name_p) => {
                let j3 = spec_skip_ws(s, name_p.1);
                if j3 >= s.len() || s[j3] != ':' {
                    Err(ParseError::Syntax)
                } else {
                    let j4 = spec_skip_ws(s, j3 + 1);
                    match spec_field(s, j4, name_p.0, acc) {
                        Err(e) => Err(e),
                        Ok(acc_p) => {
                            let j6 = spec_skip_ws(s, acc_p.1);
                            if j6 >= s.len() {
                                Err(ParseError::Syntax)
                            } else if s[j6] == ',' {
                                if i < j6 + 1 <= s.len() {
                                    spec_members(s, j6 + 1, acc_p.0, false)
                                } else {
                                    Err(ParseError::Syntax)
                                }
                            } else if s[j6] == '}' {
                                Ok((acc_p.0, j6 + 1))
                            } else {
                                Err(ParseError::Syntax)
                            }
                        },
                    }
                }
            },
        }
    }
}

/// Validates the gathered fields: the version tag must be the supported one,
/// the identifier well formed, the consent flag byte-sized, and every
/// required field present.
pub open spec fn spec_finish(p: PartialV) -> Result<UserMetaView, ParseError> {
    match p.version {
        None => Err(ParseError::MissingField),
        Some(ver) => if ver != supported_version() {
            Err(ParseError::VersionMismatch)
        } else {
            match p.client_uuid {
                None => Err(ParseError::MissingField),
                Some(u) => if !uuid_format(u) {
                    Err(ParseError::InvalidUuid)
                } else {
                    match p.metrics_consent {
                        None => Err(ParseError::MissingField),
                        Some(mc) => if mc > 255 {
                            Err(ParseError::InvalidNumber)
                        } else {
                            Ok(
                                UserMetaView {
                                    channels: match p.channels {
                                        None => None,
                                        Some(c) => c,
                                    },
                                    client_uuid: u,
                                    metrics_consent: mc as u8,
                                },
                            )
                        },
                    }
                },
            }
        },
    }
}

/// What parsing a document text yields.
pub open spec fn spec_parse(s: Seq<char>) -> Result<UserMetaView, ParseError> {
    let i = spec_skip_ws(s, 0);
    if i >= s.len() || s[i] != '{' {
        Err(ParseError::Syntax)
    } else {
        match spec_members(s, i + 1, empty_partial(), true) {
            Err(e) => Err(e),
            Ok(p) => {
                if spec_skip_ws(s, p.1) != s.len() {
                    Err(ParseError::Syntax)
                } else {
                    spec_finish(p.0)
                }
            },
        }
    }
}

// ---------------------------------------------------------------------------
// The executable parser, each step proved equal to the specification above.
// ---------------------------------------------------------------------------
/// Collects the characters of a string into a vector.
pub fn str_to_chars(s: &str) -> (v: Vec<char>)
    ensures
        v@ == s@,
{
    let n = s.unicode_len();
    let mut v: Vec<char> = Vec::new();
    let mut k: usize = 0;
    while k < n
        invariant
            0 <= k <= n,
            n == s@.len(),
            v@ == s@.subrange(0, k as int),
        decreases n - k,
    {
        v.push(s.get_char(k));
        proof {
            assert(v@ =~= s@.subrange(0, k as int + 1));
        }
        k += 1;
    }
    proof {
        assert(s@.subrange(0, n as int) =~= s@);
    }
    v
}

fn chars_eq_str(v: &Vec<char>, t: &str) -> (r: bool)
    ensures
        r == (v@ == t@),
{
    let nv = v.len();
    let nt = t.unicode_len();
    if nv != nt {
        return false;
    }
    let mut k: usize = 0;
    while k < nv
        invariant
            0 <= k <= nv,
            nv == v@.len(),
            nv == t@.len(),
            forall|j: int| 0 <= j < k ==> v@[j] == t@[j],
        decreases nv - k,
    {
        if v[k] != t.get_char(k) {
            return false;
        }
        k += 1;
    }
    proof {
        assert(v@ =~= t@);
    }
    true
}

fn is_ws_exec(c: char) -> (r: bool)
    ensures
        r == is_ws(c),
{
    c == ' ' || c == '\n' || c == '\t' || c == '\r'
}

fn is_digit_exec(c: char) -> (r: bool)
    ensures
        r == is_digit(c),
{
    '0' <= c && c <= '9'
}

fn skip_ws_exec(s: &Vec<char>, i: usize) -> (r: usize)
    requires
        i <= s@.len(),
    ensures
        r == spec_skip_ws(s@, i as int),
        i <= r <= s@.len(),
{
    let mut k: usize = i;
    while k < s.len() && is_ws_exec(s[k])
        invariant
            i <= k <= s@.len(),
            spec_skip_ws(s@, i as int) == spec_skip_ws(s@, k as int),
        decreases s@.len() - k,
    {
        k += 1;
    }
    k
}

fn string_body_exec(s: &Vec<char>, i: usize) -> (r: Result<(Vec<char>, usize), ParseError>)
    requires
        i <= s@.len(),
    ensures
        ({
            match r {
                Ok(p) => spec_string_body(s@, i as int) == Ok::<(Seq<char>, int), ParseError>(
                    (p.0@, p.1 as int),
                ) && i < p.1 <= s@.len(),
                Err(e) => spec_string_body(s@, i as int) == Err::<(Seq<char>, int), ParseError>(e),
            }
        }),
{
    let mut acc: Vec<char> = Vec::new();
    let mut k: usize = i;
    loop
        invariant
            i <= k <= s@.len(),
            spec_string_body(s@, i as int) == (match spec_string_body(s@, k as int) {
                Ok(p) => Ok::<(Seq<char>, int), ParseError>((acc@ + p.0, p.1)),
                Err(e) => Err::<(Seq<char>, int), ParseError>(e),
            }),
        decreases s@.len() - k,
    {
        if k >= s.len() {
            return Err(ParseError::Syntax);
        }
        let c = s[k];
        if c == '"' {
            proof {
                assert(acc@ + Seq::<char>::empty() =~= acc@);
            }
            return Ok((acc, k + 1));
        }
        if c == '\\' {
            if k + 1 >= s.len() {
                return Err(ParseError::Syntax);
            }
            let e = s[k + 1];
            if e == '"' || e == '\\' || e == '/' {
                proof {
                    match spec_string_body(s@, k as int + 2) {
                        Ok(p) => {
                            assert(acc@ + (seq![e] + p.0) =~= acc@.push(e) + p.0);
                        },
                        Err(_) => {},
                    }
                }
                acc.push(e);
                k = k + 2;
            } else {
                return Err(ParseError::Syntax);
            }
        } else if (c as u32) < 32 {
            return Err(ParseError::Syntax);
        } else {
            proof {
                match spec_string_body(s@, k as int + 1) {
                    Ok(p) => {
                        assert(acc@ + (seq![c] + p.0) =~= acc@.push(c) + p.0);
                    },
                    Err(_) => {},
                }
            }
            acc.push(c);
            k = k + 1;
        }
    }
}

fn digit_to_val(c: char) -> (d: u64)
    requires
        is_digit(c),
    ensures
        d == digit_val(c),
        d < 10,
{
    ((c as u32) - ('0' as u32)) as u64
}

fn number_exec(s: &Vec<char>, i: usize) -> (r: Result<(u64, usize), ParseError>)
    requires
        i <= s@.len(),
    ensures
        ({
            match r {
                Ok(p) => spec_number(s@, i as int) == Ok::<(u64, int), ParseError>(
                    (p.0, p.1 as int),
                ) && i < p.1 <= s@.len(),
                Err(e) => spec_number(s@, i as int) == Err::<(u64, int), ParseError>(e),
            }
        }),
{
    if i >= s.len() || !is_digit_exec(s[i]) {
        return Err(ParseError::Syntax);
    }
    let mut acc: u64 = 0;
    let mut k: usize = i;
    while k < s.len() && is_digit_exec(s[k])
        invariant
            i <= k <= s@.len(),
            i < s@.len() && is_digit(s@[i as int]),
            spec_number_rec(s@, i as int, 0) == spec_number_rec(s@, k as int, acc),
        decreases s@.len() - k,
    {
        let d = digit_to_val(s[k]);
        if acc > (0xffff_ffff_ffff_ffffu64 - d) / 10 {
            return Err(ParseError::InvalidNumber);
        }
        proof {
            assert(acc * 10 + d <= 0xffff_ffff_ffff_ffffu64) by {
                let m = 0xffff_ffff_ffff_ffffu64 as int;
                assert(((m - d) / 10) * 10 + (m - d) % 10 == m - d);
            }
        }
        acc = acc * 10 + d;
        k += 1;
    }
    Ok((acc, k))
}

fn skip_value_exec(s: &Vec<char>, i: usize) -> (r: Result<usize, ParseError>)
    requires
        i <= s@.len(),
    ensures
        ({
            match r {
                Ok(j) => spec_skip_value(s@, i as int) == Ok::<int, ParseError>(j as int) && i < j
                    <= s@.len(),
                Err(e) => spec_skip_value(s@, i as int) == Err::<int, ParseError>(e),
            }
        }),
{
    if i >= s.len() {
        return Err(ParseError::Syntax);
    }
    let c0 = s[i];
    if c0 == '"' {
        let mut k: usize = i + 1;
        loop
            invariant
                i + 1 <= k <= s@.len(),
                i < s@.len(),
                s@[i as int] == '"',
                spec_skip_str_lit(s@, i as int + 1) == spec_skip_str_lit(s@, k as int),
            decreases s@.len() - k,
        {
            if k >= s.len() {
                return Err(ParseError::Syntax);
            }
            let c = s[k];
            if c == '"' {
                return Ok(k + 1);
            }
            if c == '\\' {
                if s.len() - k >= 2 {
                    k = k + 2;
                } else {
                    return Err(ParseError::Syntax);
                }
            } else {
                k = k + 1;
            }
        }
    } else if c0 == '{' || c0 == '[' {
        let mut k: usize = i + 1;
        let mut depth: usize = 1;
        let mut in_str: bool = false;
        loop
            invariant
                i + 1 <= k <= s@.len(),
                i < s@.len(),
                s@[i as int] == '{' || s@[i as int] == '[',
                s@[i as int] != '"',
                1 <= depth,
                depth <= k - i,
                spec_skip_brackets(s@, i as int + 1, 1nat) == (if in_str {
                    spec_skip_in_string(s@, k as int, depth as nat)
                } else {
                    spec_skip_brackets(s@, k as int, depth as nat)
                }),
            decreases s@.len() - k,
        {
            if k >= s.len() {
                return Err(ParseError::Syntax);
            }
            let c = s[k];
            if in_str {
                if c == '"' {
                    in_str = false;
                    k = k + 1;
                } else if c == '\\' {
                    if s.len() - k >= 2 {
                        k = k + 2;
                    } else {
                        return Err(ParseError::Syntax);
                    }
                } else {
                    k = k + 1;
                }
            } else {
                if c == '"' {
                    in_str = true;
                    k = k + 1;
                } else if c == '{' || c == '[' {
                    depth = depth + 1;
                    k = k + 1;
                } else if c == '}' || c == ']' {
                    if depth == 1 {
                        return Ok(k + 1);
                    }
                    depth = depth - 1;
                    k = k + 1;
                } else {
                    k = k + 1;
                }
            }
        }
    } else {
        let mut k: usize = i;
        while k < s.len() && !is_ws_exec(s[k]) && s[k] != ',' && s[k] != '}' && s[k] != ']'
            invariant
                i <= k <= s@.len(),
                spec_skip_scalar(s@, i as int) == spec_skip_scalar(s@, k as int),
            decreases s@.len() - k,
        {
            k += 1;
        }
        if k > i {
            Ok(k)
        } else {
            Err(ParseError::Syntax)
        }
    }
}

fn contains_name_exec(acc: &Vec<(String, String)>, name: &Vec<char>) -> (r: bool)
    ensures
        r == contains_name(channels_view(acc@), name@),
{
    let mut k: usize = 0;
    while k < acc.len()
        invariant
            0 <= k <= acc@.len(),
            forall|j: int| 0 <= j < k ==> (#[trigger] channels_view(acc@)[j]).0 != name@,
        decreases acc@.len() - k,
    {
        proof {
            assert(channels_view(acc@)[k as int] == (acc@[k as int].0@, acc@[k as int].1@));
        }
        if chars_eq_str(name, acc[k].0.as_str()) {
            return true;
        }
        k += 1;
    }
    proof {
        assert(!contains_name(channels_view(acc@), name@)) by {
            if contains_name(channels_view(acc@), name@) {
                let w = choose|j: int|
                    0 <= j < channels_view(acc@).len() && (#[trigger] channels_view(acc@)[j]).0
                        == name@;
                assert((channels_view(acc@)[w]).0 != name@);
            }
        }
    }
    false
}

fn channels_members_exec(s: &Vec<char>, i: usize, acc: Vec<(String, String)>) -> (r: Result<
    (Vec<(String, String)>, usize),
    ParseError,
>)
    requires
        i <= s@.len(),
    ensures
        ({
            match r {
                Ok(p) => spec_channels_members(s@, i as int, channels_view(acc@)) == Ok::<
                    (Seq<(Seq<char>, Seq<char>)>, int),
                    ParseError,
                >((channels_view(p.0@), p.1 as int)) && i < p.1 <= s@.len(),
                Err(e) => spec_channels_members(s@, i as int, channels_view(acc@)) == Err::<
                    (Seq<(Seq<char>, Seq<char>)>, int),
                    ParseError,
                >(e),
            }
        }),
    decreases s@.len() - i,
{
    let j = skip_ws_exec(s, i);
    if j >= s.len() {
        return Err(ParseError::Syntax);
    }
    if s[j] == '}' {
        if acc.len() == 0 {
            return Ok((acc, j + 1));
        } else {
            return Err(ParseError::Syntax);
        }
    }
    if s[j] != '"' {
        return Err(ParseError::Syntax);
    }
    let (name, j2) = match string_body_exec(s, j + 1) {
        Ok(x) => x,
        Err(e) => {
            return Err(e);
        },
    };
    if contains_name_exec(&acc, &name) {
        return Err(ParseError::DuplicateField);
    }
    let j3 = skip_ws_exec(s, j2);
    if j3 >= s.len() || s[j3] != ':' {
        return Err(ParseError::Syntax);
    }
    let j4 = skip_ws_exec(s, j3 + 1);
    if j4 >= s.len() || s[j4] != '"' {
        return Err(ParseError::Syntax);
    }
    let (loc, j5) = match string_body_exec(s, j4 + 1) {
        Ok(x) => x,
        Err(e) => {
            return Err(e);
        },
    };
    let name_s = chars_to_string(&name);
    let loc_s = chars_to_string(&loc);
    let ghost acc0 = acc@;
    let mut acc2 = acc;
    acc2.push((name_s, loc_s));
    proof {
        assert(channels_view(acc2@) =~= channels_view(acc0).push((name@, loc@)));
    }
    let j6 = skip_ws_exec(s, j5);
    if j6 >= s.len() {
        return Err(ParseError::Syntax);
    }
    if s[j6] == ',' {
        return channels_members_exec(s, j6 + 1, acc2);
    }
    if s[j6] == '}' {
        return Ok((acc2, j6 + 1));
    }
    Err(ParseError::Syntax)
}

/// The fields gathered so far while walking the document object.
struct Partial {
    channels: Option<Option<Vec<(String, String)>>>,
    client_uuid: Option<String>,
    metrics_consent: Option<u64>,
    version: Option<u64>,
}

spec fn partial_view(p: Partial) -> PartialV {
    PartialV {
        channels: match p.channels {
            None => None,
            Some(None) => Some(None),
            Some(Some(cs)) => Some(Some(channels_view(cs@))),
        },
        client_uuid: match p.client_uuid {
            None => None,
            Some(u) => Some(u@),
        },
        metrics_consent: p.metrics_consent,
        version: p.version,
    }
}

fn field_exec(s: &Vec<char>, i: usize, name: &Vec<char>, acc: Partial) -> (r: Result<
    (Partial, usize),
    ParseError,
>)
    requires
        i <= s@.len(),
    ensures
        ({
            match r {
                Ok(p) => spec_field(s@, i as int, name@, partial_view(acc)) == Ok::<
                    (PartialV, int),
                    ParseError,
                >((partial_view(p.0), p.1 as int)) && i < p.1 <= s@.len(),
                Err(e) => spec_field(s@, i as int, name@, partial_view(acc)) == Err::<
                    (PartialV, int),
                    ParseError,
                >(e),
            }
        }),
{
    if chars_eq_str(name, "channels") {
        if acc.channels.is_some() {
            return Err(ParseError::DuplicateField);
        }
        if i < s.len() && s[i] == '{' {
            match channels_members_exec(s, i + 1, Vec::new()) {
                Ok((cs, j)) => {
                    proof {
                        assert(channels_view(Seq::<(String, String)>::empty()) =~= Seq::<
                            (Seq<char>, Seq<char>),
                        >::empty());
                    }
                    return Ok((Partial { channels: Some(Some(cs)), ..acc }, j));
                },
                Err(e) => {
                    proof {
                        assert(channels_view(Seq::<(String, String)>::empty()) =~= Seq::<
                            (Seq<char>, Seq<char>),
                        >::empty());
                    }
                    return Err(e);
                },
            }
        }
        if s.len() - i >= 4 && s[i] == 'n' && s[i + 1] == 'u' && s[i + 2] == 'l' && s[i + 3] == 'l' {
            return Ok((Partial { channels: Some(None), ..acc }, i + 4));
        }
        return Err(ParseError::Syntax);
    }
    if chars_eq_str(name, "floxClientUUID") {
        if acc.client_uuid.is_some() {
            return Err(ParseError::DuplicateField);
        }
        if i < s.len() && s[i] == '"' {
            match string_body_exec(s, i + 1) {
                Ok((u, j)) => {
                    let us = chars_to_string(&u);
                    return Ok((Partial { client_uuid: Some(us), ..acc }, j));
                },
                Err(e) => {
                    return Err(e);
                },
            }
        }
        return Err(ParseError::Syntax);
    }
    if chars_eq_str(name, "floxMetricsConsent") {
        if acc.metrics_consent.is_some() {
            return Err(ParseError::DuplicateField);
        }
        match number_exec(s, i) {
            Ok((n, j)) => {
                return Ok((Partial { metrics_consent: Some(n), ..acc }, j));
            },
            Err(e) => {
                return Err(e);
            },
        }
    }
    if chars_eq_str(name, "version") {
        if acc.version.is_some() {
            return Err(ParseError::DuplicateField);
        }
        match number_exec(s, i) {
            Ok((n, j)) => {
                return Ok((Partial { version: Some(n), ..acc }, j));
            },
            Err(e) => {
                return Err(e);
            },
        }
    }
    match skip_value_exec(s, i) {
        Ok(j) => Ok((acc, j)),
        Err(e) => Err(e),
    }
}

fn members_exec(s: &Vec<char>, i: usize, acc: Partial, first: bool) -> (r: Result<
    (Partial, usize),
    ParseError,
>)
    requires
        i <= s@.len(),
    ensures
        ({
            match r {
                Ok(p) => spec_members(s@, i as int, partial_view(acc), first) == Ok::<
                    (PartialV, int),
                    ParseError,
                >((partial_view(p.0), p.1 as int)) && p.1 <= s@.len(),
                Err(e) => spec_members(s@, i as int, partial_view(acc), first) == Err::<
                    (PartialV, int),
                    ParseError,
                >(e),
            }
        }),
    decreases s@.len() - i,
{
    let j = skip_ws_exec(s, i);
    if j >= s.len() {
        return Err(ParseError::Syntax);
    }
    if s[j] == '}' {
        if first {
            return Ok((acc, j + 1));
        } else {
            return Err(ParseError::Syntax);
        }
    }
    if s[j] != '"' {
        return Err(ParseError::Syntax);
    }
    let (name, j2) = match string_body_exec(s, j + 1) {
        Ok(x) => x,
        Err(e) => {
            return Err(e);
        },
    };
    let j3 = skip_ws_exec(s, j2);
    if j3 >= s.len() || s[j3] != ':' {
        return Err(ParseError::Syntax);
    }
    let j4 = skip_ws_exec(s, j3 + 1);
    let (acc2, j5) = match field_exec(s, j4, &name, acc) {
        Ok(x) => x,
        Err(e) => {
            return Err(e);
        },
    };
    let j6 = skip_ws_exec(s, j5);
    if j6 >= s.len() {
        return Err(ParseError::Syntax);
    }
    if s[j6] == ',' {
        return members_exec(s, j6 + 1, acc2, false);
    }
    if s[j6] == '}' {
        return Ok((acc2, j6 + 1));
    }
    Err(ParseError::Syntax)
}

// ---------------------------------------------------------------------------
// The parser only yields well-formed documents.
// ---------------------------------------------------------------------------
spec fn wf_chan_opt(c: Option<Option<Seq<(Seq<char>, Seq<char>)>>>) -> bool {
    match c {
        None => true,
        Some(None) => true,
        Some(Some(cs)) => crate::document::distinct_channel_names(cs)
            && crate::document::channels_json_safe(cs),
    }
}

proof fn lemma_sb_safe(s: Seq<char>, i: int)
    ensures
        spec_string_body(s, i) matches Ok(p) ==> json_safe(p.0),
    decreases s.len() - i,
{
    if i < 0 || i >= s.len() {
    } else if s[i] == '"' {
    } else if s[i] == '\\' {
        if i + 1 < s.len() {
            match unescape_char(s[i + 1]) {
                None => {},
                Some(u) => {
                    lemma_sb_safe(s, i + 2);
                    match spec_string_body(s, i + 2) {
                        Ok(p) => {
                            assert forall|k: int| 0 <= k < (seq![u] + p.0).len() implies ((seq![u]
                                + p.0)[k]) as u32 >= 32 by {
                                if k > 0 {
                                    assert((seq![u] + p.0)[k] == p.0[k - 1]);
                                }
                            }
                        },
                        Err(_) => {},
                    }
                },
            }
        }
    } else if (s[i] as u32) < 32 {
    } else {
        lemma_sb_safe(s, i + 1);
        match spec_string_body(s, i + 1) {
            Ok(p) => {
                assert forall|k: int| 0 <= k < (seq![s[i]] + p.0).len() implies ((seq![s[i]]
                    + p.0)[k]) as u32 >= 32 by {
                    if k > 0 {
                        assert((seq![s[i]] + p.0)[k] == p.0[k - 1]);
                    }
                }
            },
            Err(_) => {},
        }
    }
}

proof fn lemma_scm_wf(s: Seq<char>, i: int, acc: Seq<(Seq<char>, Seq<char>)>)
    requires
        crate::document::distinct_channel_names(acc),
        crate::document::channels_json_safe(acc),
    ensures
        spec_channels_members(s, i, acc) matches Ok(p)
            ==> crate::document::distinct_channel_names(p.0)
            && crate::document::channels_json_safe(p.0),
    decreases s.len() - i,
{
    let j = spec_skip_ws(s, i);
    if j >= s.len() {
    } else if s[j] == '}' {
    } else if s[j] != '"' {
    } else {
        match spec_string_body(s, j + 1) {
            Err(_) => {},
            Ok(name_p) => {
                if contains_name(acc, name_p.0) {
                } else {
                    let j3 = spec_skip_ws(s, name_p.1);
                    if j3 >= s.len() || s[j3] != ':' {
                    } else {
                        let j4 = spec_skip_ws(s, j3 + 1);
                        if j4 >= s.len() || s[j4] != '"' {
                        } else {
                            match spec_string_body(s, j4 + 1) {
                                Err(_) => {},
                                Ok(loc_p) => {
                                    let acc2 = acc.push((name_p.0, loc_p.0));
                                    lemma_sb_safe(s, j + 1);
                                    lemma_sb_safe(s, j4 + 1);
                                    assert(crate::document::distinct_channel_names(acc2)) by {
                                        assert forall|a: int, b: int|
                                            0 <= a < b < acc2.len() implies (acc2[a]).0 != (
                                        acc2[b]).0 by {
                                            if b < acc.len() {
                                                assert((acc[a]).0 != (acc[b]).0);
                                            } else {
                                                assert(acc2[b] == (name_p.0, loc_p.0));
                                                assert(acc2[a] == acc[a]);
                                                if (acc[a]).0 == name_p.0 {
                                                    assert(0 <= a < acc.len() && (acc[a]).0
                                                        == name_p.0);
                                                    assert(contains_name(acc, name_p.0));
                                                }
                                            }
                                        }
                                    }
                                    assert(crate::document::channels_json_safe(acc2)) by {
                                        assert forall|k: int| 0 <= k < acc2.len() implies json_safe(
                                            (#[trigger] acc2[k]).0,
                                        ) && json_safe(acc2[k].1) by {
                                            if k < acc.len() {
                                                assert(acc2[k] == acc[k]);
                                                assert(json_safe((acc[k]).0) && json_safe(
                                                    (acc[k]).1,
                                                ));
                                            } else {
                                                assert(acc2[k] == (name_p.0, loc_p.0));
                                            }
                                        }
                                    }
                                    let j6 = spec_skip_ws(s, loc_p.1);
                                    if j6 >= s.len() {
                                    } else if s[j6] == ',' {
                                        if i < j6 + 1 <= s.len() {
                                            lemma_scm_wf(s, j6 + 1, acc2);
                                        }
                                    }
                                },
                            }
                        }
                    }
                }
            },
        }
    }
}

proof fn lemma_members_wf(s: Seq<char>, i: int, acc: PartialV, first: bool)
    requires
        wf_chan_opt(acc.channels),
    ensures
        spec_members(s, i, acc, first) matches Ok(p) ==> wf_chan_opt(p.0.channels),
    decreases s.len() - i,
{
    let j = spec_skip_ws(s, i);
    if j >= s.len() {
    } else if s[j] == '}' {
    } else if s[j] != '"' {
    } else {
        match spec_string_body(s, j + 1) {
            Err(_) => {},
            Ok(name_p) => {
                let j3 = spec_skip_ws(s, name_p.1);
                if j3 >= s.len() || s[j3] != ':' {
                } else {
                    let j4 = spec_skip_ws(s, j3 + 1);
                    assert(crate::document::distinct_channel_names(
                        Seq::<(Seq<char>, Seq<char>)>::empty(),
                    ));
                    assert(crate::document::channels_json_safe(
                        Seq::<(Seq<char>, Seq<char>)>::empty(),
                    ));
                    lemma_scm_wf(s, j4 + 1, Seq::empty());
                    match spec_field(s, j4, name_p.0, acc) {
                        Err(_) => {},
                        Ok(acc_p) => {
                            assert(wf_chan_opt(acc_p.0.channels));
                            let j6 = spec_skip_ws(s, acc_p.1);
                            if j6 >= s.len() {
                            } else if s[j6] == ',' {
                                if i < j6 + 1 <= s.len() {
                                    lemma_members_wf(s, j6 + 1, acc_p.0, false);
                                }
                            }
                        },
                    }
                }
            },
        }
    }
}

/// Reads a document from its textual form. The result is exactly what the
/// parsing specification yields: a well-formed document, or the error that
/// names the first failure.
pub fn parse(s: &str) -> (r: Result<UserMeta, ParseError>)
    ensures
        ({
            match r {
                Ok(m) => spec_parse(s@) == Ok::<UserMetaView, ParseError>(m@),
                Err(e) => spec_parse(s@) == Err::<UserMetaView, ParseError>(e),
            }
        }),
{
    let v = str_to_chars(s);
    let i = skip_ws_exec(&v, 0);
    if i >= v.len() || v[i] != '{' {
        return Err(ParseError::Syntax);
    }
    let p0 = Partial { channels: None, client_uuid: None, metrics_consent: None, version: None };
    let (p, j) = match members_exec(&v, i + 1, p0, true) {
        Ok(x) => x,
        Err(e) => {
            return Err(e);
        },
    };
    proof {
        lemma_members_wf(s@, i as int + 1, empty_partial(), true);
    }
    if skip_ws_exec(&v, j) != v.len() {
        return Err(ParseError::Syntax);
    }
    let ver = match p.version {
        Some(x) => x,
        None => {
            return Err(ParseError::MissingField);
        },
    };
    if ver != 1 {
        return Err(ParseError::VersionMismatch);
    }
    let uuid = match p.client_uuid {
        Some(x) => x,
        None => {
            return Err(ParseError::MissingField);
        },
    };
    if !crate::document::is_uuid_str(uuid.as_str()) {
        return Err(ParseError::InvalidUuid);
    }
    let mc64 = match p.metrics_consent {
        Some(x) => x,
        None => {
            return Err(ParseError::MissingField);
        },
    };
    if mc64 > 255 {
        return Err(ParseError::InvalidNumber);
    }
    let mc = mc64 as u8;
    let channels = match p.channels {
        None => None,
        Some(c) => c,
    };
    let m = UserMeta::from_parts(channels, uuid, mc);
    Ok(m)
}

} // verus!
