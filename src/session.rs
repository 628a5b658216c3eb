//! The session record and its text encoding.
//!
//! A record is written as `{"sid":S,"credentials":C}`, where `S` and `C` are
//! JSON string literals. Escaping and unescaping of the literals is left to
//! serde_json; the framing around them is checked here.

use vstd::prelude::*;
use crate::error::MyError;

verus! {

/// One session: its identifier, used verbatim as the backend key, and an
/// opaque credentials payload.
pub struct Session {
    pub sid: String,
    pub credentials: String,
}

impl Session {
    pub fn new(sid: String, credentials: String) -> (r: Session)
        ensures
            r.sid@ == sid@,
            r.credentials@ == credentials@,
    {
        Session { sid, credentials }
    }

    /// The record's fields as character sequences.
    pub open spec fn fields(&self) -> (Seq<char>, Seq<char>) {
        (self.sid@, self.credentials@)
    }
}

pub open spec fn hex_digit(n: u32) -> char
    recommends
        n < 16,
{
    seq!['0', '1', '2', '3', '4', '5', '6', '7', '8', '9', 'a', 'b', 'c', 'd', 'e', 'f'][n as int]
}

/// How one character is written inside a JSON string literal.
pub open spec fn escape_char(c: char) -> Seq<char> {
    if c == '"' {
        seq!['\\', '"']
    } else if c == '\\' {
        seq!['\\', '\\']
    } else if c == '\u{8}' {
        seq!['\\', 'b']
    } else if c == '\t' {
        seq!['\\', 't']
    } else if c == '\n' {
        seq!['\\', 'n']
    } else if c == '\u{c}' {
        seq!['\\', 'f']
    } else if c == '\r' {
        seq!['\\', 'r']
    } else if (c as u32) < 0x20 {
        seq!['\\', 'u', '0', '0', hex_digit((c as u32) / 16), hex_digit((c as u32) % 16)]
    } else {
        seq![c]
    }
}

/// The contents of the JSON string literal for `s`, between its quotes.
pub open spec fn escape(s: Seq<char>) -> Seq<char>
    decreases s.len(),
{
    if s.len() == 0 {
        Seq::empty()
    } else {
        escape_char(s[0]) + escape(s.drop_first())
    }
}

/// The JSON string literal for `s`, quotes included.
pub open spec fn quoted(s: Seq<char>) -> Seq<char> {
    seq!['"'] + escape(s) + seq!['"']
}

/// What opens a record, up to the first literal.
pub open spec fn sid_open() -> Seq<char> {
    seq!['{', '"', 's', 'i', 'd', '"', ':']
}

/// What stands between the two literals of a record.
pub open spec fn credentials_key() -> Seq<char> {
    seq![',', '"', 'c', 'r', 'e', 'd', 'e', 'n', 't', 'i', 'a', 'l', 's', '"', ':']
}

/// The text of the record with these fields.
pub open spec fn record_text(sid: Seq<char>, credentials: Seq<char>) -> Seq<char> {
    sid_open() + quoted(sid) + credentials_key() + quoted(credentials) + seq!['}']
}

/// Where the string literal whose contents start at `i` has its closing
/// quote: the first quote that no backslash escapes.
pub open spec fn literal_close(t: Seq<char>, i: int) -> Option<int>
    decreases t.len() - i,
{
    if !(0 <= i < t.len()) {
        None
    } else if t[i] == '"' {
        Some(i)
    } else if t[i] == '\\' {
        if i + 2 <= t.len() {
            literal_close(t, i + 2)
        } else {
            None
        }
    } else {
        literal_close(t, i + 1)
    }
}

/// The two string literals of a record text, quotes included, when `t` has
/// the record's frame.
pub open spec fn frame(t: Seq<char>) -> Option<(Seq<char>, Seq<char>)> {
    let a = sid_open().len() as int;
    if t.len() > a && t.subrange(0, a) == sid_open() && t[a] == '"' {
        match literal_close(t, a + 1) {
            None => None,
            Some(e1) => {
                let b = e1 + 1 + credentials_key().len();
                if b < t.len() && t.subrange(e1 + 1, b) == credentials_key() && t[b] == '"' {
                    match literal_close(t, b + 1) {
                        Some(e2) => if e2 + 2 == t.len() && t[e2 + 1] == '}' {
                            Some((t.subrange(a, e1 + 1), t.subrange(b, e2 + 1)))
                        } else {
                            None
                        },
                        None => None,
                    }
                } else {
                    None
                }
            },
        }
    } else {
        None
    }
}

/// The string that serde_json reads from the JSON text `t`, if it reads one.
pub uninterp spec fn json_string_value(t: Seq<char>) -> Option<Seq<char>>;

/// The fields that a record text holds, if it is one.
pub open spec fn record_fields(t: Seq<char>) -> Option<(Seq<char>, Seq<char>)> {
    match frame(t) {
        Some((l1, l2)) => match (json_string_value(l1), json_string_value(l2)) {
            (Some(sid), Some(credentials)) => Some((sid, credentials)),
            _ => None,
        },
        None => None,
    }
}

/// `out` is what decoding `t` may give: the fields on success, `None` on
/// failure.
pub open spec fn decodes_to(t: Seq<char>, out: Option<(Seq<char>, Seq<char>)>) -> bool {
    &&& out == record_fields(t)
    &&& forall|sid: Seq<char>, credentials: Seq<char>|
        #[trigger] record_text(sid, credentials) == t ==> out == Some((sid, credentials))
}

/// Scanning over the written form of one character leads past it without
/// meeting a closing quote.
proof fn lemma_close_skips_char(t: Seq<char>, i: int, c: char)
    requires
        0 <= i,
        i + escape_char(c).len() <= t.len(),
        t.subrange(i, i + escape_char(c).len()) == escape_char(c),
    ensures
        literal_close(t, i) == literal_close(t, i + escape_char(c).len()),
{
    let e = escape_char(c);
    assert(t[i] == e[0]);
    if e.len() == 6 {
        let n = c as u32;
        assert(n < 0x20);
        assert(n / 16 < 2);
        let h1 = hex_digit(n / 16);
        let h2 = hex_digit(n % 16);
        assert(h1 != '"' && h1 != '\\');
        assert(h2 != '"' && h2 != '\\');
        assert(t[i + 2] == e[2]);
        assert(t[i + 3] == e[3]);
        assert(t[i + 4] == e[4]);
        assert(t[i + 5] == e[5]);
        assert(literal_close(t, i + 5) == literal_close(t, i + 6));
        assert(literal_close(t, i + 4) == literal_close(t, i + 5));
        assert(literal_close(t, i + 3) == literal_close(t, i + 4));
        assert(literal_close(t, i + 2) == literal_close(t, i + 3));
    }
}

/// The literal whose contents are the written form of `s` closes right
/// after them.
proof fn lemma_close_after_escape(t: Seq<char>, i: int, s: Seq<char>)
    requires
        0 <= i,
        i + escape(s).len() < t.len(),
        t.subrange(i, i + escape(s).len()) == escape(s),
        t[i + escape(s).len()] == '"',
    ensures
        literal_close(t, i) == Some(i + escape(s).len()),
    decreases s.len(),
{
    if s.len() > 0 {
        let e = escape_char(s[0]);
        let rest = s.drop_first();
        assert(escape(s) == e + escape(rest));
        assert(t.subrange(i, i + e.len()) =~= e) by {
            assert(t.subrange(i, i + e.len()) =~= t.subrange(i, i + escape(s).len()).subrange(0, e.len() as int));
        }
        lemma_close_skips_char(t, i, s[0]);
        let j = i + e.len();
        assert(t.subrange(j, j + escape(rest).len()) =~= escape(rest)) by {
            assert(t.subrange(j, j + escape(rest).len()) =~= t.subrange(i, i + escape(s).len()).subrange(e.len() as int, escape(s).len() as int));
        }
        lemma_close_after_escape(t, j, rest);
    }
}

/// A record text has the record's frame, around the literals of its fields.
proof fn lemma_frame_of_record(sid: Seq<char>, credentials: Seq<char>)
    ensures
        frame(record_text(sid, credentials)) == Some((quoted(sid), quoted(credentials))),
{
    let t = record_text(sid, credentials);
    let es = escape(sid);
    let ec = escape(credentials);
    let a: int = 7;
    assert(sid_open().len() == 7);
    assert(credentials_key().len() == 15);
    assert(t.len() == 7 + (es.len() + 2) + 15 + (ec.len() + 2) + 1);
    assert(t.subrange(0, a) =~= sid_open());
    assert(t[a] == '"');
    assert(t.subrange(a + 1, a + 1 + es.len()) =~= es);
    assert(t[a + 1 + es.len()] == '"');
    lemma_close_after_escape(t, a + 1, sid);
    let e1 = a + 1 + es.len();
    let b = e1 + 1 + 15;
    assert(t.subrange(e1 + 1, b) =~= credentials_key());
    assert(t[b] == '"');
    assert(t.subrange(b + 1, b + 1 + ec.len()) =~= ec);
    assert(t[b + 1 + ec.len()] == '"');
    lemma_close_after_escape(t, b + 1, credentials);
    let e2 = b + 1 + ec.len();
    assert(e2 + 2 == t.len());
    assert(t[e2 + 1] == '}');
    assert(t.subrange(a, e1 + 1) =~= quoted(sid));
    assert(t.subrange(b, e2 + 1) =~= quoted(credentials));
}

/// Whether `pat` stands in `cs` at `at`.
fn matches_at(cs: &Vec<char>, at: usize, pat: &Vec<char>) -> (r: bool)
    requires
        at <= cs@.len(),
    ensures
        r == (at + pat@.len() <= cs@.len() && cs@.subrange(at as int, at + pat@.len()) == pat@),
{
    if pat.len() > cs.len() - at {
        return false;
    }
    let n = cs.len();
    let mut k: usize = 0;
    while k < pat.len()
        invariant
            n == cs@.len(),
            k <= pat@.len(),
            at + pat@.len() <= cs@.len(),
            cs@.subrange(at as int, at + k) == pat@.subrange(0, k as int),
        decreases pat@.len() - k,
    {
        if cs[at + k] != pat[k] {
            assert(cs@.subrange(at as int, at + pat@.len())[k as int] != pat@[k as int]);
            return false;
        }
        k = k + 1;
        assert(cs@.subrange(at as int, at + k) =~= pat@.subrange(0, k as int));
    }
    assert(pat@.subrange(0, k as int) =~= pat@);
    true
}

/// Where the string literal whose contents start at `i` closes.
fn scan_literal(cs: &Vec<char>, i: usize) -> (r: Option<usize>)
    requires
        i <= cs@.len(),
    ensures
        match r {
            Some(e) => e < cs@.len() && literal_close(cs@, i as int) == Some(e as int),
            None => literal_close(cs@, i as int) is None,
        },
{
    let mut j: usize = i;
    while j < cs.len()
        invariant
            i <= j <= cs@.len(),
            literal_close(cs@, i as int) == literal_close(cs@, j as int),
        decreases cs@.len() - j,
    {
        if cs[j] == '"' {
            return Some(j);
        } else if cs[j] == '\\' {
            if cs.len() - j < 2 {
                return None;
            }
            j = j + 2;
        } else {
            j = j + 1;
        }
    }
    None
}

/// The characters of `cs` from `from` up to `to`.
fn copy_range(cs: &Vec<char>, from: usize, to: usize) -> (r: Vec<char>)
    requires
        from <= to <= cs@.len(),
    ensures
        r@ == cs@.subrange(from as int, to as int),
{
    let mut r: Vec<char> = Vec::new();
    let mut k: usize = from;
    while k < to
        invariant
            from <= k <= to,
            to <= cs@.len(),
            r@ == cs@.subrange(from as int, k as int),
        decreases to - k,
    {
        r.push(cs[k]);
        k = k + 1;
        assert(r@ =~= cs@.subrange(from as int, k as int));
    }
    r
}

fn sid_open_chars() -> (r: Vec<char>)
    ensures
        r@ == sid_open(),
{
    let r = vec!['{', '"', 's', 'i', 'd', '"', ':'];
    assert(r@ =~= sid_open());
    r
}

fn credentials_key_chars() -> (r: Vec<char>)
    ensures
        r@ == credentials_key(),
{
    let r = vec![',', '"', 'c', 'r', 'e', 'd', 'e', 'n', 't', 'i', 'a', 'l', 's', '"', ':'];
    assert(r@ =~= credentials_key());
    r
}

/// The two string literals of a record text, quotes included, when `cs` has
/// the record's frame.
fn split_record(cs: &Vec<char>) -> (r: Option<(Vec<char>, Vec<char>)>)
    ensures
        match r {
            Some(p) => frame(cs@) == Some((p.0@, p.1@)),
            None => frame(cs@) is None,
        },
{
    let open = sid_open_chars();
    let key = credentials_key_chars();
    let a = open.len();
    if !(cs.len() > a && matches_at(cs, 0, &open) && cs[a] == '"') {
        return None;
    }
    let e1 = match scan_literal(cs, a + 1) {
        Some(e) => e,
        None => return None,
    };
    let after = e1 + 1;
    if key.len() >= cs.len() - after {
        return None;
    }
    let b = after + key.len();
    if !(matches_at(cs, after, &key) && cs[b] == '"') {
        return None;
    }
    let e2 = match scan_literal(cs, b + 1) {
        Some(e) => e,
        None => return None,
    };
    if !(cs.len() - e2 == 2 && cs[e2 + 1] == '}') {
        return None;
    }
    Some((copy_range(cs, a, e1 + 1), copy_range(cs, b, e2 + 1)))
}

/// Relies on `str::chars` (collected into a `Vec`): the characters of `s`, in order.
#[verifier::external_body]
fn chars_of(s: &str) -> (r: Vec<char>)
    ensures
        r@ == s@,
{
    s.chars().collect()
}

/// Relies on `serde_json::to_string` on a `str`: the JSON string literal for
/// `s`. Writing a string into memory does not fail.
#[verifier::external_body]
fn json_quote(s: &str) -> (r: Result<String, serde_json::Error>)
    ensures
        r is Ok,
        r->Ok_0@ == quoted(s@),
{
    serde_json::to_string(s)
}

/// Relies on `serde_json::from_str::<String>`: reads one JSON string, and
/// reads back every literal that serde_json writes.
#[verifier::external_body]
fn json_unquote(lit: &Vec<char>) -> (r: Result<String, serde_json::Error>)
    ensures
        r is Ok <==> json_string_value(lit@) is Some,
        r is Ok ==> r->Ok_0@ == json_string_value(lit@)->0,
        forall|s: Seq<char>| #[trigger] quoted(s) == lit@ ==> r is Ok && r->Ok_0@ == s,
{
    let t: String = lit.iter().collect();
    serde_json::from_str::<String>(&t)
}

/// Relies on `serde_json::from_str::<serde::de::IgnoredAny>`: whether `t` is
/// one well-formed JSON value, and if not, serde_json's account of why.
#[verifier::external_body]
fn json_well_formed(t: &str) -> (r: Result<(), serde_json::Error>) {
    match serde_json::from_str::<serde::de::IgnoredAny>(t) {
        Ok(_) => Ok(()),
        Err(e) => Err(e),
    }
}

/// Relies on `serde::de::Error::custom` for `serde_json::Error`: a data error
/// with the given message.
#[verifier::external_body]
fn json_data_error(msg: &str) -> serde_json::Error {
    <serde_json::Error as serde::de::Error>::custom(msg)
}

impl Session {
    /// The record's text: `{"sid":S,"credentials":C}` with the fields as JSON
    /// string literals.
    pub fn encode(&self) -> (r: String)
        ensures
            r@ == record_text(self.sid@, self.credentials@),
    {
        // serde_json cannot fail to write a string into memory
        let sid = match json_quote(self.sid.as_str()) {
            Ok(q) => q,
            Err(_) => String::new(),
        };
        let credentials = match json_quote(self.credentials.as_str()) {
            Ok(q) => q,
            Err(_) => String::new(),
        };
        let mut out = String::from_str("{\"sid\":");
        out.append(sid.as_str());
        out.append(",\"credentials\":");
        out.append(credentials.as_str());
        out.append("}");
        proof {
            reveal_strlit("{\"sid\":");
            reveal_strlit(",\"credentials\":");
            reveal_strlit("}");
            assert(out@ =~= record_text(self.sid@, self.credentials@));
        }
        out
    }

    /// Reads a record back from its text. Text without the record's frame,
    /// or with a literal that is not a JSON string, is refused with a codec
    /// error (`MyError::Json`): the text is in memory, so no failure here
    /// comes from I/O.
    ///
    /// Only the compact layout that `encode` writes is read: members in the
    /// order `sid`, `credentials`, with no whitespace between tokens and no
    /// other members. Other JSON forms of a record, and a bare `null`, are
    /// refused. Inside the literals every JSON escape is accepted.
    pub fn decode(text: &str) -> (r: Result<Session, MyError>)
        ensures
            match r {
                Ok(s) => decodes_to(text@, Some(s.fields())),
                Err(e) => decodes_to(text@, None) && e is Json,
            },
    {
        let cs = chars_of(text);
        match split_record(&cs) {
            None => {
                proof {
                    assert forall|sid: Seq<char>, credentials: Seq<char>|
                        #[trigger] record_text(sid, credentials) != text@ by {
                        lemma_frame_of_record(sid, credentials);
                    }
                }
                Err(frame_failure(text))
            },
            Some((l1, l2)) => {
                proof {
                    assert forall|sid: Seq<char>, credentials: Seq<char>|
                        #[trigger] record_text(sid, credentials) == text@ implies quoted(sid) == l1@
                        && quoted(credentials) == l2@ by {
                        lemma_frame_of_record(sid, credentials);
                    }
                }
                let sid = match json_unquote(&l1) {
                    Ok(v) => v,
                    Err(e) => return Err(MyError::Json(e)),
                };
                let credentials = match json_unquote(&l2) {
                    Ok(v) => v,
                    Err(e) => return Err(MyError::Json(e)),
                };
                Ok(Session { sid, credentials })
            },
        }
    }
}

/// The codec error for a text without the record's frame: serde_json's own
/// account where the text is not well-formed JSON (bad syntax, or input that
/// ends too early), else a data error.
fn frame_failure(text: &str) -> (e: MyError)
    ensures
        e is Json,
{
    match json_well_formed(text) {
        Err(err) => MyError::Json(err),
        Ok(()) => MyError::Json(json_data_error("expected a session record {\"sid\",\"credentials\"}")),
    }
}

/// Decoding the text of a record gives back that record.
pub proof fn lemma_round_trip(
    sid: Seq<char>,
    credentials: Seq<char>,
    out: Option<(Seq<char>, Seq<char>)>,
)
    requires
        decodes_to(record_text(sid, credentials), out),
    ensures
        out == Some((sid, credentials)),
{
}

} // verus!
