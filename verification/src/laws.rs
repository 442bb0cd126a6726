use vstd::prelude::*;

use crate::codec::{
    dec_rep, digit_val, entries_json, entry_json, escape_char, is_digit, is_ws, json_escape,
    quoted, spec_channels_members, spec_number, spec_number_rec, spec_parse, spec_serialize,
    spec_field, spec_members, spec_skip_ws, spec_string_body, supported_version,
    tail_entries_json, unescape_char, contains_name, PartialV,
    ParseError,
};
use crate::document::{channels_json_safe, distinct_channel_names, json_safe, UserMetaView};
use crate::git::user_meta_file;

verus! {

/// `t` is the text of `s` starting at position `i`.
spec fn matches_at(s: Seq<char>, i: int, t: Seq<char>) -> bool {
    &&& 0 <= i
    &&& i + t.len() <= s.len()
    &&& s.subrange(i, i + t.len()) == t
}

proof fn lemma_matches_split(s: Seq<char>, i: int, a: Seq<char>, b: Seq<char>)
    requires
        matches_at(s, i, a + b),
    ensures
        matches_at(s, i, a),
        matches_at(s, i + a.len(), b),
{
    assert(s.subrange(i, i + a.len()) =~= a) by {
        assert forall|t: int| 0 <= t < a.len() implies s.subrange(i, i + a.len())[t] == a[t] by {
            assert(s.subrange(i, i + (a + b).len())[t] == (a + b)[t]);
        }
    }
    assert(s.subrange(i + a.len(), i + a.len() + b.len()) =~= b) by {
        assert forall|t: int|
            0 <= t < b.len() implies s.subrange(i + a.len(), i + a.len() + b.len())[t] == b[t] by {
            assert(s.subrange(i, i + (a + b).len())[a.len() + t] == (a + b)[a.len() + t]);
        }
    }
}

proof fn lemma_matches_join(s: Seq<char>, i: int, a: Seq<char>, b: Seq<char>)
    requires
        matches_at(s, i, a),
        matches_at(s, i + a.len(), b),
    ensures
        matches_at(s, i, a + b),
{
    assert(s.subrange(i, i + (a + b).len()) =~= a + b) by {
        assert forall|t: int|
            0 <= t < (a + b).len() implies s.subrange(i, i + (a + b).len())[t] == (a + b)[t] by {
            if t < a.len() {
                assert(s.subrange(i, i + a.len())[t] == a[t]);
            } else {
                assert(s.subrange(i + a.len(), i + a.len() + b.len())[t - a.len()] == b[t
                    - a.len()]);
            }
        }
    }
}

proof fn lemma_matches_char(s: Seq<char>, i: int, c: char)
    requires
        matches_at(s, i, seq![c]),
    ensures
        0 <= i < s.len(),
        s[i] == c,
{
    assert(s.subrange(i, i + 1)[0] == s[i]);
}

proof fn lemma_char_matches(s: Seq<char>, i: int, c: char)
    requires
        0 <= i < s.len(),
        s[i] == c,
    ensures
        matches_at(s, i, seq![c]),
{
    assert(s.subrange(i, i + 1) =~= seq![c]);
}

/// A string literal that carries exactly the escaped form of a printable
/// string parses back to that string.
proof fn lemma_psb_of_escaped(s: Seq<char>, i: int, x: Seq<char>)
    requires
        json_safe(x),
        matches_at(s, i, json_escape(x)),
        i + json_escape(x).len() < s.len(),
        s[i + json_escape(x).len()] == '"',
    ensures
        spec_string_body(s, i) == Ok::<(Seq<char>, int), ParseError>(
            (x, i + json_escape(x).len() + 1),
        ),
    decreases x.len(),
{
    if x.len() == 0 {
        assert(json_escape(x) == Seq::<char>::empty());
        assert(s[i] == '"');
        assert(x =~= Seq::<char>::empty());
    } else {
        let c = x[0];
        let x1 = x.drop_first();
        assert(json_escape(x) == escape_char(c) + json_escape(x1));
        assert(json_safe(x1)) by {
            assert forall|t: int| 0 <= t < x1.len() implies (#[trigger] x1[t]) as u32 >= 32 by {
                assert(x1[t] == x[t + 1]);
            }
        }
        assert((c as u32) >= 32);
        lemma_matches_split(s, i, escape_char(c), json_escape(x1));
        if c == '"' || c == '\\' {
            assert(escape_char(c) == seq!['\\', c]);
            assert(seq!['\\', c] =~= seq!['\\'] + seq![c]);
            lemma_matches_split(s, i, seq!['\\'], seq![c]);
            lemma_matches_char(s, i, '\\');
            lemma_matches_char(s, i + 1, c);
            lemma_psb_of_escaped(s, i + 2, x1);
            assert(unescape_char(c) == Some(c));
            assert(seq![c] + x1 =~= x);
            assert(spec_string_body(s, i) == Ok::<(Seq<char>, int), ParseError>(
                (x, i + json_escape(x).len() + 1),
            ));
        } else {
            assert(escape_char(c) == seq![c]);
            lemma_matches_char(s, i, c);
            assert(c != '"' && c != '\\');
            lemma_psb_of_escaped(s, i + 1, x1);
            assert(seq![c] + x1 =~= x);
            assert(spec_string_body(s, i) == Ok::<(Seq<char>, int), ParseError>(
                (x, i + json_escape(x).len() + 1),
            ));
        }
    }
}

proof fn lemma_quoted_psb(s: Seq<char>, i: int, x: Seq<char>)
    requires
        json_safe(x),
        matches_at(s, i, quoted(x)),
    ensures
        0 <= i < s.len(),
        s[i] == '"',
        spec_string_body(s, i + 1) == Ok::<(Seq<char>, int), ParseError>(
            (x, i + quoted(x).len()),
        ),
        i + 2 <= i + quoted(x).len() <= s.len(),
{
    assert(quoted(x) == (seq!['"'] + json_escape(x)) + seq!['"']);
    lemma_matches_split(s, i, seq!['"'] + json_escape(x), seq!['"']);
    lemma_matches_split(s, i, seq!['"'], json_escape(x));
    lemma_matches_char(s, i, '"');
    lemma_matches_char(s, i + 1 + json_escape(x).len(), '"');
    lemma_psb_of_escaped(s, i + 1, x);
}

/// Running the number reader over the decimal digits of `n` from a clean
/// accumulator ends just past them with `n` accumulated.
proof fn lemma_number_runs(s: Seq<char>, i: int, n: u64)
    requires
        matches_at(s, i, dec_rep(n)),
    ensures
        spec_number_rec(s, i, 0) == spec_number_rec(s, i + dec_rep(n).len(), n),
    decreases n,
{
    if n < 10 {
        assert(dec_rep(n) == seq![crate::codec::dec_digit(n)]);
        lemma_matches_char(s, i, crate::codec::dec_digit(n));
        assert(is_digit(s[i]) && digit_val(s[i]) == n);
        assert(spec_number_rec(s, i, 0) == spec_number_rec(s, i + 1, n));
    } else {
        let k = dec_rep(n / 10).len() as int;
        let d = n % 10;
        assert(dec_rep(n) == dec_rep(n / 10) + seq![crate::codec::dec_digit(d)]);
        lemma_matches_split(s, i, dec_rep(n / 10), seq![crate::codec::dec_digit(d)]);
        lemma_number_runs(s, i, n / 10);
        lemma_matches_char(s, i + k, crate::codec::dec_digit(d));
        assert(is_digit(s[i + k]) && digit_val(s[i + k]) == d);
        assert((n / 10) * 10 + d == n);
        assert(n / 10 <= (0xffff_ffff_ffff_ffffu64 - d) / 10) by {
            assert((n / 10) * 10 <= 0xffff_ffff_ffff_ffffu64 - d);
            assert(((n / 10) * 10) / 10 == n / 10);
        }
        assert(spec_number_rec(s, i + k, n / 10) == spec_number_rec(s, i + k + 1, n));
    }
}

/// The decimal digits of a number, followed by a non-digit, parse back to
/// that number.
proof fn lemma_number_of_dec(s: Seq<char>, i: int, n: u64)
    requires
        matches_at(s, i, dec_rep(n)),
        i + dec_rep(n).len() < s.len(),
        !is_digit(s[i + dec_rep(n).len()]),
    ensures
        spec_number(s, i) == Ok::<(u64, int), ParseError>((n, i + dec_rep(n).len())),
{
    lemma_dec_first_digit(n);
    assert(s[i] == dec_rep(n)[0]) by {
        assert(s.subrange(i, i + dec_rep(n).len())[0] == s[i]);
    }
    lemma_number_runs(s, i, n);
    assert(spec_number_rec(s, i + dec_rep(n).len(), n) == Ok::<(u64, int), ParseError>(
        (n, i + dec_rep(n).len()),
    ));
}

proof fn lemma_member_comma(
    s: Seq<char>,
    i: int,
    acc: PartialV,
    first: bool,
    key: Seq<char>,
    p: int,
    acc2: PartialV,
    j5: int,
)
    requires
        0 <= i < s.len(),
        s[i] == '"',
        spec_string_body(s, i + 1) == Ok::<(Seq<char>, int), ParseError>((key, p)),
        i < p < s.len(),
        s[p] == ':',
        p + 1 < s.len(),
        !is_ws(s[p + 1]),
        spec_field(s, p + 1, key, acc) == Ok::<(PartialV, int), ParseError>((acc2, j5)),
        p < j5 < s.len(),
        s[j5] == ',',
    ensures
        spec_members(s, i, acc, first) == spec_members(s, j5 + 1, acc2, false),
{
    assert(spec_skip_ws(s, i) == i);
    assert(spec_skip_ws(s, p) == p);
    assert(spec_skip_ws(s, p + 1) == p + 1);
    assert(spec_skip_ws(s, j5) == j5);
}

proof fn lemma_member_close(
    s: Seq<char>,
    i: int,
    acc: PartialV,
    first: bool,
    key: Seq<char>,
    p: int,
    acc2: PartialV,
    j5: int,
)
    requires
        0 <= i < s.len(),
        s[i] == '"',
        spec_string_body(s, i + 1) == Ok::<(Seq<char>, int), ParseError>((key, p)),
        i < p < s.len(),
        s[p] == ':',
        p + 1 < s.len(),
        !is_ws(s[p + 1]),
        spec_field(s, p + 1, key, acc) == Ok::<(PartialV, int), ParseError>((acc2, j5)),
        p < j5 < s.len(),
        s[j5] == '}',
    ensures
        spec_members(s, i, acc, first) == Ok::<(PartialV, int), ParseError>((acc2, j5 + 1)),
{
    assert(spec_skip_ws(s, i) == i);
    assert(spec_skip_ws(s, p) == p);
    assert(spec_skip_ws(s, p + 1) == p + 1);
    assert(spec_skip_ws(s, j5) == j5);
}

/// The text of the channel entries from `k` on, closed by the table's brace.
spec fn scm_text(cs: Seq<(Seq<char>, Seq<char>)>, k: int) -> Seq<char> {
    (entry_json(cs[k]) + tail_entries_json(cs, k + 1)) + seq!['}']
}

proof fn lemma_scm_entries(s: Seq<char>, i: int, cs: Seq<(Seq<char>, Seq<char>)>, k: int)
    requires
        distinct_channel_names(cs),
        channels_json_safe(cs),
        0 <= k < cs.len(),
        matches_at(s, i, scm_text(cs, k)),
    ensures
        spec_channels_members(s, i, cs.take(k)) == Ok::<
            (Seq<(Seq<char>, Seq<char>)>, int),
            ParseError,
        >((cs, i + scm_text(cs, k).len())),
    decreases cs.len() - k,
{
    let name = (cs[k]).0;
    let loc = (cs[k]).1;
    assert(json_safe(name) && json_safe(loc));
    assert(entry_json(cs[k]) == (quoted(name) + seq![':']) + quoted(loc));
    let tl = tail_entries_json(cs, k + 1);
    lemma_matches_split(s, i, entry_json(cs[k]) + tl, seq!['}']);
    lemma_matches_split(s, i, entry_json(cs[k]), tl);
    lemma_matches_split(s, i, quoted(name) + seq![':'], quoted(loc));
    lemma_matches_split(s, i, quoted(name), seq![':']);
    lemma_quoted_psb(s, i, name);
    let p1 = i + quoted(name).len();
    lemma_matches_char(s, p1, ':');
    let p2 = p1 + 1;
    lemma_quoted_psb(s, p2, loc);
    let p3 = p2 + quoted(loc).len();
    assert(p3 == i + entry_json(cs[k]).len());
    lemma_matches_char(s, i + entry_json(cs[k]).len() + tl.len(), '}');
    assert(spec_skip_ws(s, i) == i);
    assert(spec_skip_ws(s, p1) == p1);
    assert(spec_skip_ws(s, p2) == p2);
    assert(!contains_name(cs.take(k), name)) by {
        if contains_name(cs.take(k), name) {
            let w = choose|t: int|
                0 <= t < cs.take(k).len() && (#[trigger] cs.take(k)[t]).0 == name;
            assert((cs[w]).0 == (cs[k]).0);
            assert((cs[w]).0 != (cs[k]).0);
        }
    }
    let acc2 = cs.take(k).push((name, loc));
    assert(acc2 =~= cs.take(k + 1));
    if k + 1 < cs.len() {
        assert(tl == (seq![','] + entry_json(cs[k + 1])) + tail_entries_json(cs, k + 2));
        lemma_matches_split(s, p3, seq![','] + entry_json(cs[k + 1]), tail_entries_json(cs, k + 2));
        lemma_matches_split(s, p3, seq![','], entry_json(cs[k + 1]));
        lemma_matches_char(s, p3, ',');
        assert(spec_skip_ws(s, p3) == p3);
        lemma_matches_join(s, p3 + 1, entry_json(cs[k + 1]), tail_entries_json(cs, k + 2));
        lemma_char_matches(s, i + entry_json(cs[k]).len() + tl.len(), '}');
        assert(p3 + 1 + (entry_json(cs[k + 1]) + tail_entries_json(cs, k + 2)).len() == i
            + entry_json(cs[k]).len() + tl.len());
        lemma_matches_join(
            s,
            p3 + 1,
            entry_json(cs[k + 1]) + tail_entries_json(cs, k + 2),
            seq!['}'],
        );
        assert(matches_at(s, p3 + 1, scm_text(cs, k + 1)));
        lemma_scm_entries(s, p3 + 1, cs, k + 1);
        assert(acc2 == cs.take(k + 1));
        assert(spec_channels_members(s, i, cs.take(k)) == spec_channels_members(
            s,
            p3 + 1,
            cs.take(k + 1),
        ));
        assert(i + scm_text(cs, k).len() == p3 + 1 + scm_text(cs, k + 1).len());
    } else {
        assert(tl == Seq::<char>::empty());
        assert(s[p3] == '}');
        assert(spec_skip_ws(s, p3) == p3);
        assert(acc2 == cs.take(k + 1));
        assert(cs.take(k + 1) =~= cs);
        assert(spec_channels_members(s, i, cs.take(k)) == Ok::<
            (Seq<(Seq<char>, Seq<char>)>, int),
            ParseError,
        >((cs, p3 + 1)));
        assert(p3 + 1 == i + scm_text(cs, k).len());
    }
}

/// The text of a document from its identifier field to its closing brace.
spec fn tail_text(uuid: Seq<char>, mc: u64, version: u64) -> Seq<char> {
    quoted("floxClientUUID"@) + seq![':'] + quoted(uuid) + seq![','] + quoted(
        "floxMetricsConsent"@,
    ) + seq![':'] + dec_rep(mc) + seq![','] + quoted("version"@) + seq![':'] + dec_rep(version)
        + seq!['}']
}

proof fn lemma_dec_first_digit(n: u64)
    ensures
        dec_rep(n).len() >= 1,
        is_digit(dec_rep(n)[0]),
        !is_ws(dec_rep(n)[0]),
    decreases n,
{
    if n < 10 {
        assert(dec_rep(n) == seq![crate::codec::dec_digit(n)]);
    } else {
        lemma_dec_first_digit(n / 10);
        assert(dec_rep(n) == dec_rep(n / 10) + seq![crate::codec::dec_digit(n % 10)]);
        assert(dec_rep(n)[0] == dec_rep(n / 10)[0]);
    }
}

proof fn lemma_key_literals()
    ensures
        json_safe("channels"@),
        json_safe("floxClientUUID"@),
        json_safe("floxMetricsConsent"@),
        json_safe("version"@),
        "floxClientUUID"@ != "channels"@,
        "floxMetricsConsent"@ != "channels"@,
        "floxMetricsConsent"@ != "floxClientUUID"@,
        "version"@ != "channels"@,
        "version"@ != "floxClientUUID"@,
        "version"@ != "floxMetricsConsent"@,
{
    reveal_strlit("channels");
    reveal_strlit("floxClientUUID");
    reveal_strlit("floxMetricsConsent");
    reveal_strlit("version");
    assert("channels"@.len() == 8);
    assert("floxClientUUID"@.len() == 14);
    assert("floxMetricsConsent"@.len() == 18);
    assert("version"@.len() == 7);
}

#[verifier::rlimit(100)]
proof fn lemma_tail_members(
    s: Seq<char>,
    i: int,
    acc: PartialV,
    first: bool,
    uuid: Seq<char>,
    mc: u64,
    version: u64,
)
    requires
        acc.client_uuid is None,
        acc.metrics_consent is None,
        acc.version is None,
        json_safe(uuid),
        matches_at(s, i, tail_text(uuid, mc, version)),
        i + tail_text(uuid, mc, version).len() == s.len(),
    ensures
        spec_members(s, i, acc, first) == Ok::<(PartialV, int), ParseError>(
            (
                PartialV {
                    client_uuid: Some(uuid),
                    metrics_consent: Some(mc),
                    version: Some(version),
                    ..acc
                },
                s.len() as int,
            ),
        ),
{
    lemma_key_literals();
    let k1 = quoted("floxClientUUID"@);
    let k2 = quoted("floxMetricsConsent"@);
    let k3 = quoted("version"@);
    let w01 = k1;
    let w02 = w01 + seq![':'];
    let w03 = w02 + quoted(uuid);
    let w04 = w03 + seq![','];
    let w05 = w04 + k2;
    let w06 = w05 + seq![':'];
    let w07 = w06 + dec_rep(mc);
    let w08 = w07 + seq![','];
    let w09 = w08 + k3;
    let w10 = w09 + seq![':'];
    let w11 = w10 + dec_rep(version);
    assert(tail_text(uuid, mc, version) == w11 + seq!['}']);
    lemma_matches_split(s, i, w11, seq!['}']);
    lemma_matches_split(s, i, w10, dec_rep(version));
    lemma_matches_split(s, i, w09, seq![':']);
    lemma_matches_split(s, i, w08, k3);
    lemma_matches_split(s, i, w07, seq![',']);
    lemma_matches_split(s, i, w06, dec_rep(mc));
    lemma_matches_split(s, i, w05, seq![':']);
    lemma_matches_split(s, i, w04, k2);
    lemma_matches_split(s, i, w03, seq![',']);
    lemma_matches_split(s, i, w02, quoted(uuid));
    lemma_matches_split(s, i, w01, seq![':']);
    let c1 = i + k1.len();
    lemma_matches_char(s, c1, ':');
    lemma_matches_char(s, i + w03.len(), ',');
    lemma_matches_char(s, i + w05.len(), ':');
    lemma_matches_char(s, i + w07.len(), ',');
    lemma_matches_char(s, i + w09.len(), ':');
    lemma_matches_char(s, i + w11.len(), '}');
    lemma_quoted_psb(s, i, "floxClientUUID"@);
    lemma_quoted_psb(s, c1 + 1, uuid);
    let ju = i + w03.len();
    let accu = PartialV { client_uuid: Some(uuid), ..acc };
    assert(spec_field(s, c1 + 1, "floxClientUUID"@, acc) == Ok::<(PartialV, int), ParseError>(
        (accu, ju),
    ));
    lemma_member_comma(s, i, acc, first, "floxClientUUID"@, c1, accu, ju);
    let m2 = i + w04.len();
    lemma_quoted_psb(s, m2, "floxMetricsConsent"@);
    let c2 = m2 + k2.len();
    lemma_dec_first_digit(mc);
    assert(s[c2 + 1] == dec_rep(mc)[0]) by {
        assert(s.subrange(i + w06.len(), i + w06.len() + dec_rep(mc).len())[0] == s[i
            + w06.len()]);
    }
    assert(!is_digit(s[i + w07.len()]));
    lemma_number_of_dec(s, c2 + 1, mc);
    let jm = i + w07.len();
    let accm = PartialV { metrics_consent: Some(mc), ..accu };
    assert(spec_field(s, c2 + 1, "floxMetricsConsent"@, accu) == Ok::<(PartialV, int), ParseError>(
        (accm, jm),
    ));
    lemma_member_comma(s, m2, accu, false, "floxMetricsConsent"@, c2, accm, jm);
    let m3 = i + w08.len();
    lemma_quoted_psb(s, m3, "version"@);
    let c3 = m3 + k3.len();
    lemma_dec_first_digit(version);
    assert(s[c3 + 1] == dec_rep(version)[0]) by {
        assert(s.subrange(i + w10.len(), i + w10.len() + dec_rep(version).len())[0] == s[i
            + w10.len()]);
    }
    assert(!is_digit(s[i + w11.len()]));
    lemma_number_of_dec(s, c3 + 1, version);
    let jv = i + w11.len();
    let accv = PartialV { version: Some(version), ..accm };
    assert(spec_field(s, c3 + 1, "version"@, accm) == Ok::<(PartialV, int), ParseError>(
        (accv, jv),
    ));
    lemma_member_close(s, m3, accm, false, "version"@, c3, accv, jv);
    assert(jv + 1 == s.len());
}

/// The canonical text splits into the leading brace with the channel field,
/// followed by the rest of the document.
proof fn lemma_serialize_split(v: UserMetaView, version: u64)
    ensures
        spec_serialize(v, version) == (seq!['{'] + crate::codec::channels_field_json(v.channels))
            + tail_text(v.client_uuid, v.metrics_consent as u64, version),
{
    assert(spec_serialize(v, version) =~= (seq!['{'] + crate::codec::channels_field_json(
        v.channels,
    )) + tail_text(v.client_uuid, v.metrics_consent as u64, version));
}

/// Walking the channel-table member from just after the opening brace.
#[verifier::rlimit(100)]
proof fn lemma_channels_member(s: Seq<char>, cs: Seq<(Seq<char>, Seq<char>)>)
    requires
        distinct_channel_names(cs),
        channels_json_safe(cs),
        matches_at(s, 1, crate::codec::channels_field_json(Some(cs))),
        1 + crate::codec::channels_field_json(Some(cs)).len() <= s.len(),
    ensures
        spec_members(s, 1, crate::codec::empty_partial(), true) == spec_members(
            s,
            1 + crate::codec::channels_field_json(Some(cs)).len() as int,
            PartialV {
                channels: Some(Some(cs)),
                client_uuid: None,
                metrics_consent: None,
                version: None,
            },
            false,
        ),
{
    lemma_key_literals();
    let ch = crate::codec::channels_field_json(Some(cs));
    let kc = quoted("channels"@);
    assert(ch == ((kc + seq![':', '{']) + entries_json(cs)) + seq!['}', ',']);
    lemma_matches_split(s, 1, (kc + seq![':', '{']) + entries_json(cs), seq!['}', ',']);
    lemma_matches_split(s, 1, kc + seq![':', '{'], entries_json(cs));
    lemma_matches_split(s, 1, kc, seq![':', '{']);
    lemma_quoted_psb(s, 1, "channels"@);
    let pc: int = 1 + kc.len() as int;
    assert(seq![':', '{'] =~= seq![':'] + seq!['{']);
    lemma_matches_split(s, pc, seq![':'], seq!['{']);
    lemma_matches_char(s, pc, ':');
    lemma_matches_char(s, pc + 1, '{');
    let pe: int = pc + 2;
    let pb: int = pe + entries_json(cs).len() as int;
    assert(seq!['}', ','] =~= seq!['}'] + seq![',']);
    lemma_matches_split(s, pb, seq!['}'], seq![',']);
    lemma_matches_char(s, pb, '}');
    lemma_matches_char(s, pb + 1, ',');
    let acc1 = PartialV {
        channels: Some(Some(cs)),
        client_uuid: None,
        metrics_consent: None,
        version: None,
    };
    if cs.len() == 0 {
        assert(entries_json(cs) == Seq::<char>::empty());
        assert(pb == pe);
        assert(spec_skip_ws(s, pe) == pe);
        assert(cs =~= Seq::<(Seq<char>, Seq<char>)>::empty());
        assert(spec_channels_members(s, pe, Seq::empty()) == Ok::<
            (Seq<(Seq<char>, Seq<char>)>, int),
            ParseError,
        >((cs, pb + 1)));
    } else {
        lemma_matches_join(s, pe, entries_json(cs), seq!['}']);
        assert(entries_json(cs) == entry_json(cs[0]) + tail_entries_json(cs, 1));
        assert(matches_at(s, pe, scm_text(cs, 0)));
        lemma_scm_entries(s, pe, cs, 0);
        assert(cs.take(0) =~= Seq::<(Seq<char>, Seq<char>)>::empty());
        assert(pe + scm_text(cs, 0).len() == pb + 1);
        assert(spec_channels_members(s, pe, Seq::empty()) == Ok::<
            (Seq<(Seq<char>, Seq<char>)>, int),
            ParseError,
        >((cs, pb + 1)));
    }
    assert(spec_field(s, pc + 1, "channels"@, crate::codec::empty_partial()) == Ok::<
        (PartialV, int),
        ParseError,
    >((acc1, pb + 1)));
    lemma_member_comma(s, 1, crate::codec::empty_partial(), true, "channels"@, pc, acc1, pb + 1);
    assert(pb + 2 == 1 + ch.len());
}

/// The whole member walk over the canonical text of a document.
#[verifier::rlimit(100)]
proof fn lemma_members_of_serialize(v: UserMetaView, version: u64)
    requires
        v.well_formed(),
    ensures
        spec_serialize(v, version).len() > 1,
        spec_serialize(v, version)[0] == '{',
        spec_members(spec_serialize(v, version), 1, crate::codec::empty_partial(), true) == Ok::<
            (PartialV, int),
            ParseError,
        >(
            (
                PartialV {
                    channels: match v.channels {
                        None => None,
                        Some(cs) => Some(Some(cs)),
                    },
                    client_uuid: Some(v.client_uuid),
                    metrics_consent: Some(v.metrics_consent as u64),
                    version: Some(version),
                },
                spec_serialize(v, version).len() as int,
            ),
        ),
{
    lemma_key_literals();
    lemma_serialize_split(v, version);
    let mc = v.metrics_consent as u64;
    assert(json_safe(v.client_uuid)) by {
        assert forall|t: int|
            0 <= t < v.client_uuid.len() implies (#[trigger] v.client_uuid[t]) as u32 >= 32 by {
            if t == 8 || t == 13 || t == 18 || t == 23 {
                assert(v.client_uuid[t] == '-');
            } else {
                assert(crate::document::is_hex_char(v.client_uuid[t]));
            }
        }
    }
    let s = spec_serialize(v, version);
    let ch = crate::codec::channels_field_json(v.channels);
    let t01 = seq!['{'] + ch;
    let tt = tail_text(v.client_uuid, mc, version);
    assert(tt.len() >= 1) by {
        assert(tt == (quoted("floxClientUUID"@) + seq![':'] + quoted(v.client_uuid) + seq![',']
            + quoted("floxMetricsConsent"@) + seq![':'] + dec_rep(mc) + seq![','] + quoted(
            "version"@,
        ) + seq![':'] + dec_rep(version)) + seq!['}']);
    }
    assert(matches_at(s, 0, s)) by {
        assert(s.subrange(0, s.len() as int) =~= s);
    }
    assert(matches_at(s, 0, t01 + tt));
    lemma_matches_split(s, 0, t01, tt);
    lemma_matches_split(s, 0, seq!['{'], ch);
    lemma_matches_char(s, 0, '{');
    match v.channels {
        None => {
            assert(ch == Seq::<char>::empty());
            assert(t01.len() == 1);
            lemma_tail_members(s, 1, crate::codec::empty_partial(), true, v.client_uuid, mc, version);
        },
        Some(cs) => {
            lemma_channels_member(s, cs);
            lemma_tail_members(s, t01.len() as int, PartialV {
                channels: Some(Some(cs)),
                client_uuid: None,
                metrics_consent: None,
                version: None,
            }, false, v.client_uuid, mc, version);
        },
    }
}

/// Parsing the canonical text of a well-formed document yields the document
/// back when the version tag is the supported one, and the version-mismatch
/// error for any other tag.
proof fn lemma_parse_of_serialize(v: UserMetaView, version: u64)
    requires
        v.well_formed(),
    ensures
        spec_parse(spec_serialize(v, version)) == (if version == supported_version() {
            Ok::<UserMetaView, ParseError>(v)
        } else {
            Err::<UserMetaView, ParseError>(ParseError::VersionMismatch)
        }),
{
    lemma_members_of_serialize(v, version);
    let s = spec_serialize(v, version);
    assert(spec_skip_ws(s, 0) == 0);
    assert(spec_skip_ws(s, s.len() as int) == s.len());
}

/// Round trip: the canonical text of any well-formed document, carrying the
/// supported schema version, parses back to exactly that document.
pub proof fn lemma_serialize_parse_round_trip(v: UserMetaView)
    requires
        v.well_formed(),
    ensures
        spec_parse(spec_serialize(v, supported_version())) == Ok::<UserMetaView, ParseError>(v),
{
    lemma_parse_of_serialize(v, 1);
}

/// A document text whose version tag is not the supported one is always
/// rejected with the version-mismatch error, never coerced.
pub proof fn lemma_version_mismatch_rejected(v: UserMetaView, version: u64)
    requires
        v.well_formed(),
        version != supported_version(),
    ensures
        spec_parse(spec_serialize(v, version)) == Err::<UserMetaView, ParseError>(
            ParseError::VersionMismatch,
        ),
{
    lemma_parse_of_serialize(v, version);
}

/// Round trip across the protocols: staging a well-formed document puts its
/// canonical text at the document path; finalizing publishes the local
/// content overlaid with that staging; and a fresh load parses the published
/// content back to exactly the saved document.
pub proof fn lemma_save_finalize_load_round_trip(
    d: UserMetaView,
    local: Map<Seq<char>, Seq<char>>,
)
    requires
        d.well_formed(),
    ensures
        ({
            let text = spec_serialize(d, supported_version());
            let staged = Map::<Seq<char>, Seq<char>>::empty().insert(user_meta_file(), text);
            let published = local.union_prefer_right(staged);
            &&& published.contains_key(user_meta_file())
            &&& spec_parse(published[user_meta_file()]) == Ok::<UserMetaView, ParseError>(d)
        }),
{
    let text = spec_serialize(d, supported_version());
    let staged = Map::<Seq<char>, Seq<char>>::empty().insert(user_meta_file(), text);
    let published = local.union_prefer_right(staged);
    assert(staged.contains_key(user_meta_file()));
    assert(published.contains_key(user_meta_file()));
    assert(published[user_meta_file()] == text);
    lemma_serialize_parse_round_trip(d);
}

} // verus!
