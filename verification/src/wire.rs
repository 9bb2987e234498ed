//! The engine's wire format: one JSON object per line.
//!
//! The core frames every payload itself, so that the one guarantee the
//! write serializer needs — a payload never contains an embedded newline
//! — is proved rather than assumed.  The exact text of each payload is
//! pinned by the spec functions here.

use vstd::prelude::*;

use crate::text::append_str;
use crate::text::append_u64;
use crate::text::dec_digits;
use crate::text::string_from_chars;

verus! {

/// The hexadecimal digit character for a value in `0..16`.
pub open spec fn hex_digit(d: int) -> char {
    if d < 10 {
        crate::text::dec_digit(d)
    } else if d == 10 { 'a' }
    else if d == 11 { 'b' }
    else if d == 12 { 'c' }
    else if d == 13 { 'd' }
    else if d == 14 { 'e' }
    else { 'f' }
}

/// How one character is written inside a JSON string literal: quote,
/// backslash and control characters are escaped, everything else stands
/// for itself.
pub open spec fn json_escape_char(c: char) -> Seq<char> {
    if c == '"' {
        seq!['\\', '"']
    } else if c == '\\' {
        seq!['\\', '\\']
    } else if c == '\n' {
        seq!['\\', 'n']
    } else if c == '\r' {
        seq!['\\', 'r']
    } else if c == '\t' {
        seq!['\\', 't']
    } else if (c as u32) < 0x20 {
        seq!['\\', 'u', '0', '0', hex_digit(c as u32 as int / 16), hex_digit(c as u32 as int % 16)]
    } else {
        seq![c]
    }
}

/// The body of a JSON string literal for `s`.
pub open spec fn json_escaped(s: Seq<char>) -> Seq<char>
    decreases s.len(),
{
    if s.len() == 0 {
        Seq::empty()
    } else {
        json_escape_char(s[0]) + json_escaped(s.drop_first())
    }
}

/// A JSON string literal for `s`, quotes included.
pub open spec fn json_string(s: Seq<char>) -> Seq<char> {
    seq!['"'] + json_escaped(s) + seq!['"']
}

/// A komi held in half points, written back as decimal text: even half
/// points are whole numbers, odd ones end in `.5`.
pub open spec fn komi_text(half: int) -> Seq<char> {
    let mag = if half < 0 { -half } else { half };
    (if half < 0 { seq!['-'] } else { Seq::<char>::empty() }) + dec_digits((mag / 2) as nat) + (
    if mag % 2 == 1 { ".5"@ } else { Seq::<char>::empty() })
}

/// A `[color, coordinate]` pair as a JSON array of two strings.
pub open spec fn pair_text(color: Seq<char>, coord: Seq<char>) -> Seq<char> {
    seq!['['] + json_string(color) + seq![','] + json_string(coord) + seq![']']
}

/// The comma-separated items of a pair array.
pub open spec fn pair_items(ps: Seq<(Seq<char>, Seq<char>)>) -> Seq<char>
    decreases ps.len(),
{
    if ps.len() == 0 {
        Seq::empty()
    } else if ps.len() == 1 {
        pair_text(ps[0].0, ps[0].1)
    } else {
        pair_items(ps.drop_last()) + seq![','] + pair_text(ps.last().0, ps.last().1)
    }
}

/// A pair array with its brackets.
pub open spec fn pair_array(ps: Seq<(Seq<char>, Seq<char>)>) -> Seq<char> {
    seq!['['] + pair_items(ps) + seq![']']
}

/// An optional boolean field: nothing when unset, otherwise the given
/// prefix (comma, key and colon) followed by the JSON boolean.
pub open spec fn opt_bool_field(prefix: Seq<char>, v: Option<bool>) -> Seq<char> {
    match v {
        Option::None => Seq::empty(),
        Option::Some(true) => prefix + "true"@,
        Option::Some(false) => prefix + "false"@,
    }
}

/// No embedded newline: the payload stays one line on the wire.
pub open spec fn line_clean(s: Seq<char>) -> bool {
    forall|i: int| 0 <= i < s.len() ==> s[i] != '\n'
}

pub proof fn lemma_line_clean_concat(a: Seq<char>, b: Seq<char>)
    ensures
        line_clean(a + b) == (line_clean(a) && line_clean(b)),
{
    if line_clean(a) && line_clean(b) {
        assert forall|i: int| 0 <= i < (a + b).len() implies (a + b)[i] != '\n' by {
            if i < a.len() {
                assert((a + b)[i] == a[i]);
            } else {
                assert((a + b)[i] == b[i - a.len()]);
            }
        }
    }
    if line_clean(a + b) {
        assert forall|i: int| 0 <= i < a.len() implies a[i] != '\n' by {
            assert((a + b)[i] == a[i]);
        }
        assert forall|i: int| 0 <= i < b.len() implies b[i] != '\n' by {
            assert((a + b)[a.len() + i] == b[i]);
        }
    }
}

pub proof fn lemma_escape_char_clean(c: char)
    ensures
        line_clean(json_escape_char(c)),
{
}

pub proof fn lemma_escaped_clean(s: Seq<char>)
    ensures
        line_clean(json_escaped(s)),
    decreases s.len(),
{
    if s.len() == 0 {
    } else {
        lemma_escape_char_clean(s[0]);
        lemma_escaped_clean(s.drop_first());
        lemma_line_clean_concat(json_escape_char(s[0]), json_escaped(s.drop_first()));
    }
}

pub proof fn lemma_json_string_clean(s: Seq<char>)
    ensures
        line_clean(json_string(s)),
{
    lemma_escaped_clean(s);
    lemma_line_clean_concat(seq!['"'], json_escaped(s));
    lemma_line_clean_concat(seq!['"'] + json_escaped(s), seq!['"']);
}

pub proof fn lemma_dec_digits_clean(n: nat)
    ensures
        line_clean(dec_digits(n)),
    decreases n,
{
    if n < 10 {
    } else {
        lemma_dec_digits_clean(n / 10);
        lemma_line_clean_concat(dec_digits(n / 10), seq![crate::text::dec_digit((n % 10) as int)]);
    }
}

/// Appending one pair extends the comma-separated items as expected.
pub proof fn lemma_pair_items_push(ps: Seq<(Seq<char>, Seq<char>)>, p: (Seq<char>, Seq<char>))
    ensures
        ps.len() == 0 ==> pair_items(ps.push(p)) == pair_text(p.0, p.1),
        ps.len() > 0 ==> pair_items(ps.push(p)) == pair_items(ps) + seq![','] + pair_text(
            p.0,
            p.1,
        ),
{
    let q = ps.push(p);
    assert(q.last() == p);
    assert(q.drop_last() =~= ps);
    if ps.len() == 0 {
        assert(q.len() == 1);
        assert(q[0] == p);
    }
}

pub proof fn lemma_char_clean(c: char)
    requires
        c != '\n',
    ensures
        line_clean(seq![c]),
{
    assert forall|i: int| 0 <= i < 1 implies seq![c][i] != '\n' by {
        assert(seq![c][0] == c);
    }
}

pub proof fn lemma_pair_text_clean(color: Seq<char>, coord: Seq<char>)
    ensures
        line_clean(pair_text(color, coord)),
{
    lemma_char_clean('[');
    lemma_char_clean(',');
    lemma_char_clean(']');
    lemma_json_string_clean(color);
    lemma_json_string_clean(coord);
    lemma_line_clean_concat(seq!['['], json_string(color));
    lemma_line_clean_concat(seq!['['] + json_string(color), seq![',']);
    lemma_line_clean_concat(seq!['['] + json_string(color) + seq![','], json_string(coord));
    lemma_line_clean_concat(
        seq!['['] + json_string(color) + seq![','] + json_string(coord),
        seq![']'],
    );
}

pub proof fn lemma_pair_items_clean(ps: Seq<(Seq<char>, Seq<char>)>)
    ensures
        line_clean(pair_items(ps)),
    decreases ps.len(),
{
    if ps.len() == 0 {
    } else if ps.len() == 1 {
        lemma_pair_text_clean(ps[0].0, ps[0].1);
    } else {
        lemma_pair_items_clean(ps.drop_last());
        lemma_char_clean(',');
        lemma_pair_text_clean(ps.last().0, ps.last().1);
        lemma_line_clean_concat(pair_items(ps.drop_last()), seq![',']);
        lemma_line_clean_concat(
            pair_items(ps.drop_last()) + seq![','],
            pair_text(ps.last().0, ps.last().1),
        );
    }
}

pub proof fn lemma_pair_array_clean(ps: Seq<(Seq<char>, Seq<char>)>)
    ensures
        line_clean(pair_array(ps)),
{
    lemma_char_clean('[');
    lemma_char_clean(']');
    lemma_pair_items_clean(ps);
    lemma_line_clean_concat(seq!['['], pair_items(ps));
    lemma_line_clean_concat(seq!['['] + pair_items(ps), seq![']']);
}

pub proof fn lemma_komi_text_clean(half: int)
    ensures
        line_clean(komi_text(half)),
{
    let mag = if half < 0 { -half } else { half };
    let sign = if half < 0 { seq!['-'] } else { Seq::<char>::empty() };
    let frac = if mag % 2 == 1 { ".5"@ } else { Seq::<char>::empty() };
    lemma_char_clean('-');
    lemma_dec_digits_clean((mag / 2) as nat);
    reveal_strlit(".5");
    assert(line_clean(frac));
    lemma_line_clean_concat(sign, dec_digits((mag / 2) as nat));
    lemma_line_clean_concat(sign + dec_digits((mag / 2) as nat), frac);
}

pub proof fn lemma_opt_bool_clean(prefix: Seq<char>, v: Option<bool>)
    requires
        line_clean(prefix),
    ensures
        line_clean(opt_bool_field(prefix, v)),
{
    reveal_strlit("true");
    reveal_strlit("false");
    assert(line_clean("true"@));
    assert(line_clean("false"@));
    match v {
        Option::None => {},
        Option::Some(true) => {
            lemma_line_clean_concat(prefix, "true"@);
        },
        Option::Some(false) => {
            lemma_line_clean_concat(prefix, "false"@);
        },
    }
}

/// Escaping one more character extends the escaped body at the end.
pub proof fn lemma_escaped_push(a: Seq<char>, c: char)
    ensures
        json_escaped(a.push(c)) == json_escaped(a) + json_escape_char(c),
    decreases a.len(),
{
    let q = a.push(c);
    if a.len() == 0 {
        assert(q[0] == c);
        assert(q.drop_first() =~= Seq::<char>::empty());
        assert(json_escaped(Seq::<char>::empty()) =~= Seq::<char>::empty());
        assert(json_escaped(a) + json_escape_char(c) =~= json_escape_char(c));
        assert(json_escaped(q) =~= json_escape_char(c) + Seq::<char>::empty());
        assert(json_escape_char(c) + Seq::<char>::empty() =~= json_escape_char(c));
    } else {
        assert(q.drop_first() =~= a.drop_first().push(c));
        lemma_escaped_push(a.drop_first(), c);
        assert(json_escaped(q) == json_escape_char(a[0]) + (json_escaped(a.drop_first())
            + json_escape_char(c)));
        assert(json_escape_char(a[0]) + (json_escaped(a.drop_first()) + json_escape_char(c))
            =~= (json_escape_char(a[0]) + json_escaped(a.drop_first())) + json_escape_char(c));
    }
}

fn hex_char(d: u32) -> (c: char)
    requires
        d < 16,
    ensures
        c == hex_digit(d as int),
{
    if d == 10 { 'a' }
    else if d == 11 { 'b' }
    else if d == 12 { 'c' }
    else if d == 13 { 'd' }
    else if d == 14 { 'e' }
    else if d == 15 { 'f' }
    else {
        crate::text::digit_char(d as u64)
    }
}

/// Appends the escape of one character.
fn append_escape_char(out: &mut Vec<char>, c: char)
    ensures
        final(out)@ == old(out)@ + json_escape_char(c),
{
    if c == '"' {
        out.push('\\');
        out.push('"');
    } else if c == '\\' {
        out.push('\\');
        out.push('\\');
    } else if c == '\n' {
        out.push('\\');
        out.push('n');
    } else if c == '\r' {
        out.push('\\');
        out.push('r');
    } else if c == '\t' {
        out.push('\\');
        out.push('t');
    } else {
        let v = c as u32;
        if v < 0x20 {
            out.push('\\');
            out.push('u');
            out.push('0');
            out.push('0');
            out.push(hex_char(v / 16));
            out.push(hex_char(v % 16));
        } else {
            out.push(c);
        }
    }
    assert(final(out)@ =~= old(out)@ + json_escape_char(c));
}

/// Appends the JSON string literal for `s`, quotes included.
pub fn append_json_string(out: &mut Vec<char>, s: &str)
    ensures
        final(out)@ == old(out)@ + json_string(s@),
{
    out.push('"');
    let n = s.unicode_len();
    let mut i: usize = 0;
    while i < n
        invariant
            n == s@.len(),
            i <= n,
            out@ == old(out)@ + seq!['"'] + json_escaped(s@.subrange(0, i as int)),
        decreases n - i,
    {
        let c = s.get_char(i);
        append_escape_char(out, c);
        proof {
            assert(s@.subrange(0, i + 1 as int) =~= s@.subrange(0, i as int).push(s@[i as int]));
            lemma_escaped_push(s@.subrange(0, i as int), s@[i as int]);
            assert(out@ =~= old(out)@ + seq!['"'] + json_escaped(s@.subrange(0, i + 1 as int)));
        }
        i = i + 1;
    }
    out.push('"');
    proof {
        assert(s@.subrange(0, n as int) =~= s@);
        assert(out@ =~= old(out)@ + json_string(s@));
    }
}

/// Appends the decimal komi text for a komi held in half points.
pub fn append_komi(out: &mut Vec<char>, half: i32)
    ensures
        final(out)@ == old(out)@ + komi_text(half as int),
{
    let mag: u64 = if half < 0 {
        (-(half as i64)) as u64
    } else {
        half as u64
    };
    if half < 0 {
        out.push('-');
    }
    append_u64(out, mag / 2);
    if mag % 2 == 1 {
        append_str(out, ".5");
    }
    assert(final(out)@ =~= old(out)@ + komi_text(half as int));
}

/// The view of a list of `(color, coordinate)` pairs.
pub open spec fn pairs_view(ps: Seq<(String, String)>) -> Seq<(Seq<char>, Seq<char>)> {
    Seq::new(ps.len(), |i: int| (ps[i].0@, ps[i].1@))
}

/// Appends a pair array, brackets included.
pub fn append_pairs(out: &mut Vec<char>, ps: &Vec<(String, String)>)
    ensures
        final(out)@ == old(out)@ + pair_array(pairs_view(ps@)),
{
    out.push('[');
    let n = ps.len();
    let mut i: usize = 0;
    while i < n
        invariant
            n == ps@.len(),
            i <= n,
            out@ == old(out)@ + seq!['['] + pair_items(pairs_view(ps@).subrange(0, i as int)),
        decreases n - i,
    {
        if i > 0 {
            out.push(',');
        }
        out.push('[');
        append_json_string(out, ps[i].0.as_str());
        out.push(',');
        append_json_string(out, ps[i].1.as_str());
        out.push(']');
        proof {
            let pv = pairs_view(ps@);
            assert(pv.subrange(0, i + 1 as int) =~= pv.subrange(0, i as int).push(pv[i as int]));
            lemma_pair_items_push(pv.subrange(0, i as int), pv[i as int]);
            assert(out@ =~= old(out)@ + seq!['['] + pair_items(pv.subrange(0, i + 1 as int)));
        }
        i = i + 1;
    }
    out.push(']');
    proof {
        assert(pairs_view(ps@).subrange(0, n as int) =~= pairs_view(ps@));
        assert(out@ =~= old(out)@ + pair_array(pairs_view(ps@)));
    }
}

/// Appends an optional boolean field with the given textual prefix.
fn append_opt_bool(out: &mut Vec<char>, prefix: &str, v: &Option<bool>)
    ensures
        final(out)@ == old(out)@ + opt_bool_field(prefix@, *v),
{
    match v {
        Option::None => {},
        Option::Some(b) => {
            append_str(out, prefix);
            if *b {
                append_str(out, "true");
            } else {
                append_str(out, "false");
            }
        },
    }
    assert(final(out)@ =~= old(out)@ + opt_bool_field(prefix@, *v));
}

/// The query record sent for one analysis request, already normalized:
/// colors assigned to every move, rules and visit limits defaulted, komi
/// in half points.  `override_settings`, when present, is an opaque
/// pre-rendered JSON object preserved verbatim.
pub struct AnalysisQuery {
    pub id: String,
    pub initial_stones: Vec<(String, String)>,
    pub moves: Vec<(String, String)>,
    pub rules: String,
    pub komi_half: i32,
    pub board_x_size: u8,
    pub board_y_size: u8,
    pub max_visits: u32,
    pub include_ownership: Option<bool>,
    pub include_policy: Option<bool>,
    pub include_pv_visits: Option<bool>,
    pub override_settings: Option<String>,
}

/// The exact one-line JSON text sent to the engine for a query.
pub open spec fn query_json(q: &AnalysisQuery) -> Seq<char> {
    "{\"id\":"@ + json_string(q.id@) + ",\"initialStones\":"@ + pair_array(
        pairs_view(q.initial_stones@),
    ) + ",\"moves\":"@ + pair_array(pairs_view(q.moves@)) + ",\"rules\":"@ + json_string(q.rules@)
        + ",\"komi\":"@ + komi_text(q.komi_half as int) + ",\"boardXSize\":"@ + dec_digits(
        q.board_x_size as nat,
    ) + ",\"boardYSize\":"@ + dec_digits(q.board_y_size as nat) + ",\"maxVisits\":"@ + dec_digits(
        q.max_visits as nat,
    ) + opt_bool_field(",\"includeOwnership\":"@, q.include_ownership) + opt_bool_field(
        ",\"includePolicy\":"@,
        q.include_policy,
    ) + opt_bool_field(",\"includePvVisits\":"@, q.include_pv_visits) + (
    match q.override_settings {
        Option::Some(o) => ",\"overrideSettings\":"@ + o@,
        Option::None => Seq::<char>::empty(),
    }) + "}"@
}

/// Joining two newline-free pieces stays newline-free.
proof fn lemma_clean2(a: Seq<char>, b: Seq<char>)
    requires
        line_clean(a),
        line_clean(b),
    ensures
        line_clean(a + b),
{
    lemma_line_clean_concat(a, b);
}

/// The query text is one line: it contains no embedded newline, as long
/// as the opaque override text contains none.
pub proof fn lemma_query_json_clean(q: &AnalysisQuery)
    requires
        match q.override_settings {
            Option::Some(o) => line_clean(o@),
            Option::None => true,
        },
    ensures
        line_clean(query_json(q)),
{
    reveal_strlit("{\"id\":");
    reveal_strlit(",\"initialStones\":");
    reveal_strlit(",\"moves\":");
    reveal_strlit(",\"rules\":");
    reveal_strlit(",\"komi\":");
    reveal_strlit(",\"boardXSize\":");
    reveal_strlit(",\"boardYSize\":");
    reveal_strlit(",\"maxVisits\":");
    reveal_strlit(",\"includeOwnership\":");
    reveal_strlit(",\"includePolicy\":");
    reveal_strlit(",\"includePvVisits\":");
    reveal_strlit(",\"overrideSettings\":");
    reveal_strlit("}");
    lemma_json_string_clean(q.id@);
    lemma_pair_array_clean(pairs_view(q.initial_stones@));
    lemma_pair_array_clean(pairs_view(q.moves@));
    lemma_json_string_clean(q.rules@);
    lemma_komi_text_clean(q.komi_half as int);
    lemma_dec_digits_clean(q.board_x_size as nat);
    lemma_dec_digits_clean(q.board_y_size as nat);
    lemma_dec_digits_clean(q.max_visits as nat);
    lemma_opt_bool_clean(",\"includeOwnership\":"@, q.include_ownership);
    lemma_opt_bool_clean(",\"includePolicy\":"@, q.include_policy);
    lemma_opt_bool_clean(",\"includePvVisits\":"@, q.include_pv_visits);
    let over = match q.override_settings {
        Option::Some(o) => ",\"overrideSettings\":"@ + o@,
        Option::None => Seq::<char>::empty(),
    };
    match q.override_settings {
        Option::Some(o) => {
            lemma_clean2(",\"overrideSettings\":"@, o@);
        },
        Option::None => {},
    }
    let s1 = "{\"id\":"@ + json_string(q.id@);
    lemma_clean2("{\"id\":"@, json_string(q.id@));
    let s2 = s1 + ",\"initialStones\":"@;
    lemma_clean2(s1, ",\"initialStones\":"@);
    let s3 = s2 + pair_array(pairs_view(q.initial_stones@));
    lemma_clean2(s2, pair_array(pairs_view(q.initial_stones@)));
    let s4 = s3 + ",\"moves\":"@;
    lemma_clean2(s3, ",\"moves\":"@);
    let s5 = s4 + pair_array(pairs_view(q.moves@));
    lemma_clean2(s4, pair_array(pairs_view(q.moves@)));
    let s6 = s5 + ",\"rules\":"@;
    lemma_clean2(s5, ",\"rules\":"@);
    let s7 = s6 + json_string(q.rules@);
    lemma_clean2(s6, json_string(q.rules@));
    let s8 = s7 + ",\"komi\":"@;
    lemma_clean2(s7, ",\"komi\":"@);
    let s9 = s8 + komi_text(q.komi_half as int);
    lemma_clean2(s8, komi_text(q.komi_half as int));
    let s10 = s9 + ",\"boardXSize\":"@;
    lemma_clean2(s9, ",\"boardXSize\":"@);
    let s11 = s10 + dec_digits(q.board_x_size as nat);
    lemma_clean2(s10, dec_digits(q.board_x_size as nat));
    let s12 = s11 + ",\"boardYSize\":"@;
    lemma_clean2(s11, ",\"boardYSize\":"@);
    let s13 = s12 + dec_digits(q.board_y_size as nat);
    lemma_clean2(s12, dec_digits(q.board_y_size as nat));
    let s14 = s13 + ",\"maxVisits\":"@;
    lemma_clean2(s13, ",\"maxVisits\":"@);
    let s15 = s14 + dec_digits(q.max_visits as nat);
    lemma_clean2(s14, dec_digits(q.max_visits as nat));
    let s16 = s15 + opt_bool_field(",\"includeOwnership\":"@, q.include_ownership);
    lemma_clean2(s15, opt_bool_field(",\"includeOwnership\":"@, q.include_ownership));
    let s17 = s16 + opt_bool_field(",\"includePolicy\":"@, q.include_policy);
    lemma_clean2(s16, opt_bool_field(",\"includePolicy\":"@, q.include_policy));
    let s18 = s17 + opt_bool_field(",\"includePvVisits\":"@, q.include_pv_visits);
    lemma_clean2(s17, opt_bool_field(",\"includePvVisits\":"@, q.include_pv_visits));
    let s19 = s18 + over;
    lemma_clean2(s18, over);
    lemma_clean2(s19, "}"@);
    assert(query_json(q) == s19 + "}"@);
}

/// Renders the query as its one-line JSON text; the result is free of
/// embedded newlines whenever the opaque override text is.
pub fn encode_query(q: &AnalysisQuery) -> (r: String)
    ensures
        r@ == query_json(q),
        (match q.override_settings {
            Option::Some(o) => line_clean(o@),
            Option::None => true,
        }) ==> line_clean(r@),
{
    proof {
        if match &q.override_settings {
            Option::Some(o) => line_clean(o@),
            Option::None => true,
        } {
            lemma_query_json_clean(q);
        }
    }
    let mut out: Vec<char> = Vec::new();
    append_str(&mut out, "{\"id\":");
    append_json_string(&mut out, q.id.as_str());
    append_str(&mut out, ",\"initialStones\":");
    append_pairs(&mut out, &q.initial_stones);
    append_str(&mut out, ",\"moves\":");
    append_pairs(&mut out, &q.moves);
    append_str(&mut out, ",\"rules\":");
    append_json_string(&mut out, q.rules.as_str());
    append_str(&mut out, ",\"komi\":");
    append_komi(&mut out, q.komi_half);
    append_str(&mut out, ",\"boardXSize\":");
    append_u64(&mut out, q.board_x_size as u64);
    append_str(&mut out, ",\"boardYSize\":");
    append_u64(&mut out, q.board_y_size as u64);
    append_str(&mut out, ",\"maxVisits\":");
    append_u64(&mut out, q.max_visits as u64);
    append_opt_bool(&mut out, ",\"includeOwnership\":", &q.include_ownership);
    append_opt_bool(&mut out, ",\"includePolicy\":", &q.include_policy);
    append_opt_bool(&mut out, ",\"includePvVisits\":", &q.include_pv_visits);
    match &q.override_settings {
        Option::Some(o) => {
            append_str(&mut out, ",\"overrideSettings\":");
            append_str(&mut out, o.as_str());
        },
        Option::None => {},
    }
    append_str(&mut out, "}");
    proof {
        assert(out@ =~= query_json(q));
    }
    string_from_chars(&out)
}

/// The exact one-line JSON text of a control action.
pub open spec fn action_json(id: Seq<char>, action: Seq<char>) -> Seq<char> {
    "{\"id\":"@ + json_string(id) + ",\"action\":"@ + json_string(action) + "}"@
}

/// The action text is one line: it contains no embedded newline.
pub proof fn lemma_action_json_clean(id: Seq<char>, action: Seq<char>)
    ensures
        line_clean(action_json(id, action)),
{
    reveal_strlit("{\"id\":");
    reveal_strlit(",\"action\":");
    reveal_strlit("}");
    lemma_json_string_clean(id);
    lemma_json_string_clean(action);
    let s1 = "{\"id\":"@ + json_string(id);
    lemma_clean2("{\"id\":"@, json_string(id));
    let s2 = s1 + ",\"action\":"@;
    lemma_clean2(s1, ",\"action\":"@);
    let s3 = s2 + json_string(action);
    lemma_clean2(s2, json_string(action));
    lemma_clean2(s3, "}"@);
    assert(action_json(id, action) == s3 + "}"@);
}

/// Renders a control action (a ping, a cache clear, a version query) as
/// its one-line JSON text.
pub fn encode_action(id: &String, action: &str) -> (r: String)
    ensures
        r@ == action_json(id@, action@),
        line_clean(r@),
{
    proof {
        lemma_action_json_clean(id@, action@);
    }
    let mut out: Vec<char> = Vec::new();
    append_str(&mut out, "{\"id\":");
    append_json_string(&mut out, id.as_str());
    append_str(&mut out, ",\"action\":");
    append_json_string(&mut out, action);
    append_str(&mut out, "}");
    proof {
        assert(out@ =~= action_json(id@, action@));
    }
    string_from_chars(&out)
}

} // verus!
