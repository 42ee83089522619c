//! The keychain credential record format: a single JSON object, of whose
//! members `api_key` (required, a string), `email` and
//! `subscription_tier` (optional, string or null) are read; their string
//! values may carry the simple escape sequences, not `\u` escapes. Every
//! other member is passed over without interpretation: its value may be
//! a string with any escapes, an atom, or a balanced bracketed composite.
//!
//! `\u` escapes are excluded from the recognized values deliberately:
//! decoding them needs hex decoding and surrogate-pair combination, whose
//! failure cases (a lone or mismatched surrogate) the record format would
//! then have to settle, while the values read here — an `sk-ant-` key and
//! an email address — are plain ASCII as written by the credential
//! writers. A record that does escape them is reported as not parsing
//! rather than read with altered text.

use vstd::prelude::*;
use crate::types::ClaudeCredentials;
use crate::types::ClaudeCredentialsV;

verus! {

/// A member value: a string, the literal `null`, or another atom.
pub ghost enum JsonVal {
    S(Seq<char>),
    Null,
    Other,
}

/// The fields gathered while reading members; a recognized key read twice
/// rejects the record, so each is remembered once seen.
#[verifier::ext_equal]
pub ghost struct CredAcc {
    pub api_key: Option<Seq<char>>,
    pub email_seen: bool,
    pub email: Option<Seq<char>>,
    pub tier_seen: bool,
    pub tier: Option<Seq<char>>,
}

/// No field seen yet.
pub open spec fn empty_acc() -> CredAcc {
    CredAcc { api_key: None, email_seen: false, email: None, tier_seen: false, tier: None }
}

/// JSON whitespace.
pub open spec fn is_json_ws(c: char) -> bool {
    c == ' ' || c == '\t' || c == '\n' || c == '\r'
}

/// The first position at or after `i` holding no whitespace.
pub open spec fn skip_ws(s: Seq<char>, i: int) -> int
    decreases s.len() - i,
{
    if 0 <= i < s.len() && is_json_ws(s[i]) {
        skip_ws(s, i + 1)
    } else {
        i
    }
}

pub proof fn lemma_skip_ws_bounds(s: Seq<char>, i: int)
    requires
        0 <= i <= s.len(),
    ensures
        i <= skip_ws(s, i) <= s.len(),
    decreases s.len() - i,
{
    if i < s.len() && is_json_ws(s[i]) {
        lemma_skip_ws_bounds(s, i + 1);
    }
}

/// The character an escape sequence stands for, if the sequence exists.
/// `\u` is not among them: see the module header for why the recognized
/// values exclude it.
pub open spec fn unescape(c: char) -> Option<char> {
    if c == '"' {
        Some('"')
    } else if c == '\\' {
        Some('\\')
    } else if c == '/' {
        Some('/')
    } else if c == 'n' {
        Some('\n')
    } else if c == 't' {
        Some('\t')
    } else if c == 'r' {
        Some('\r')
    } else if c == 'b' {
        Some('\u{8}')
    } else if c == 'f' {
        Some('\u{c}')
    } else {
        None
    }
}

/// The rest of a string token after the opening quote: the text it stands
/// for and the position after the closing quote.
pub open spec fn parse_string_tail(s: Seq<char>, i: int) -> Option<(Seq<char>, int)>
    decreases s.len() - i,
{
    if !(0 <= i < s.len()) {
        None
    } else if s[i] == '"' {
        Some((Seq::empty(), i + 1))
    } else if s[i] == '\\' {
        if i + 1 < s.len() {
            match unescape(s[i + 1]) {
                Some(c) => match parse_string_tail(s, i + 2) {
                    Some(tj) => Some((seq![c] + tj.0, tj.1)),
                    None => None,
                },
                None => None,
            }
        } else {
            None
        }
    } else {
        match parse_string_tail(s, i + 1) {
            Some(tj) => Some((seq![s[i]] + tj.0, tj.1)),
            None => None,
        }
    }
}

pub proof fn lemma_parse_string_tail_bounds(s: Seq<char>, i: int)
    requires
        0 <= i <= s.len(),
        parse_string_tail(s, i) is Some,
    ensures
        i < parse_string_tail(s, i)->Some_0.1 <= s.len(),
    decreases s.len() - i,
{
    if i < s.len() && s[i] == '"' {
    } else if i < s.len() && s[i] == '\\' {
        lemma_parse_string_tail_bounds(s, i + 2);
    } else if i < s.len() {
        lemma_parse_string_tail_bounds(s, i + 1);
    }
}

/// A whole string token starting at `i`.
pub open spec fn parse_string(s: Seq<char>, i: int) -> Option<(Seq<char>, int)> {
    if 0 <= i < s.len() && s[i] == '"' {
        parse_string_tail(s, i + 1)
    } else {
        None
    }
}

pub proof fn lemma_parse_string_bounds(s: Seq<char>, i: int)
    requires
        0 <= i <= s.len(),
        parse_string(s, i) is Some,
    ensures
        i < parse_string(s, i)->Some_0.1 <= s.len(),
{
    lemma_parse_string_tail_bounds(s, i + 1);
}

/// A character an unquoted atom may hold.
pub open spec fn is_atom_char(c: char) -> bool {
    ('0' <= c && c <= '9') || ('a' <= c && c <= 'z') || ('A' <= c && c <= 'Z')
        || c == '-' || c == '+' || c == '.'
}

/// The position after the atom characters starting at `i`.
pub open spec fn scan_atom(s: Seq<char>, i: int) -> int
    decreases s.len() - i,
{
    if 0 <= i < s.len() && is_atom_char(s[i]) {
        scan_atom(s, i + 1)
    } else {
        i
    }
}

pub proof fn lemma_scan_atom_bounds(s: Seq<char>, i: int)
    requires
        0 <= i <= s.len(),
    ensures
        i <= scan_atom(s, i) <= s.len(),
    decreases s.len() - i,
{
    if i < s.len() && is_atom_char(s[i]) {
        lemma_scan_atom_bounds(s, i + 1);
    }
}

/// A character a number atom may hold.
pub open spec fn is_number_char(c: char) -> bool {
    ('0' <= c && c <= '9') || c == '-' || c == '+' || c == '.' || c == 'e' || c == 'E'
}

/// An atom is acceptable when it is a keyword or shaped like a number.
pub open spec fn atom_ok(t: Seq<char>) -> bool {
    ||| t == "null"@
    ||| t == "true"@
    ||| t == "false"@
    ||| (t.len() > 0 && forall|k: int| 0 <= k < t.len() ==> is_number_char(#[trigger] t[k]))
}

/// A member value starting at `i`: a string token or an acceptable atom.
pub open spec fn parse_value(s: Seq<char>, i: int) -> Option<(JsonVal, int)> {
    if 0 <= i < s.len() && s[i] == '"' {
        match parse_string_tail(s, i + 1) {
            Some(tj) => Some((JsonVal::S(tj.0), tj.1)),
            None => None,
        }
    } else {
        let j = scan_atom(s, i);
        let t = s.subrange(i, j);
        if i < j && atom_ok(t) {
            if t == "null"@ {
                Some((JsonVal::Null, j))
            } else {
                Some((JsonVal::Other, j))
            }
        } else {
            None
        }
    }
}

pub proof fn lemma_parse_value_bounds(s: Seq<char>, i: int)
    requires
        0 <= i <= s.len(),
        parse_value(s, i) is Some,
    ensures
        i < parse_value(s, i)->Some_0.1 <= s.len(),
{
    if 0 <= i < s.len() && s[i] == '"' {
        lemma_parse_string_tail_bounds(s, i + 1);
    } else {
        lemma_scan_atom_bounds(s, i);
    }
}

/// The rest of a string passed over without interpretation, after its
/// opening quote: a backslash passes over the next character, and the
/// first bare quote ends it.
pub open spec fn skip_string_any(s: Seq<char>, i: int) -> Option<int>
    decreases s.len() - i,
{
    if !(0 <= i < s.len()) {
        None
    } else if s[i] == '"' {
        Some(i + 1)
    } else if s[i] == '\\' {
        if i + 1 < s.len() {
            skip_string_any(s, i + 2)
        } else {
            None
        }
    } else {
        skip_string_any(s, i + 1)
    }
}

pub proof fn lemma_skip_string_any_bounds(s: Seq<char>, i: int)
    requires
        0 <= i <= s.len(),
        skip_string_any(s, i) is Some,
    ensures
        i < skip_string_any(s, i)->Some_0 <= s.len(),
    decreases s.len() - i,
{
    if i < s.len() && s[i] == '"' {
    } else if i < s.len() && s[i] == '\\' {
        lemma_skip_string_any_bounds(s, i + 2);
    } else if i < s.len() {
        lemma_skip_string_any_bounds(s, i + 1);
    }
}

/// Scans past a bracketed value one character at a time: `depth` counts
/// the open brackets, `in_str` and `esc` track string state so that
/// brackets inside strings do not count; the result is the position
/// after the bracket that closes the value.
pub open spec fn skip_composite(s: Seq<char>, i: int, depth: nat, in_str: bool, esc: bool) -> Option<int>
    decreases s.len() - i,
{
    if !(0 <= i < s.len()) {
        None
    } else if esc {
        skip_composite(s, i + 1, depth, in_str, false)
    } else if in_str {
        if s[i] == '\\' {
            skip_composite(s, i + 1, depth, true, true)
        } else if s[i] == '"' {
            skip_composite(s, i + 1, depth, false, false)
        } else {
            skip_composite(s, i + 1, depth, true, false)
        }
    } else if s[i] == '"' {
        skip_composite(s, i + 1, depth, true, false)
    } else if s[i] == '{' || s[i] == '[' {
        skip_composite(s, i + 1, depth + 1, false, false)
    } else if s[i] == '}' || s[i] == ']' {
        if depth == 1 {
            Some(i + 1)
        } else {
            skip_composite(s, i + 1, (depth - 1) as nat, false, false)
        }
    } else {
        skip_composite(s, i + 1, depth, false, false)
    }
}

pub proof fn lemma_skip_composite_bounds(s: Seq<char>, i: int, depth: nat, in_str: bool, esc: bool)
    requires
        0 <= i <= s.len(),
        skip_composite(s, i, depth, in_str, esc) is Some,
    ensures
        i < skip_composite(s, i, depth, in_str, esc)->Some_0 <= s.len(),
    decreases s.len() - i,
{
    if i < s.len() {
        if esc {
            lemma_skip_composite_bounds(s, i + 1, depth, in_str, false);
        } else if in_str {
            if s[i] == '\\' {
                lemma_skip_composite_bounds(s, i + 1, depth, true, true);
            } else if s[i] == '"' {
                lemma_skip_composite_bounds(s, i + 1, depth, false, false);
            } else {
                lemma_skip_composite_bounds(s, i + 1, depth, true, false);
            }
        } else if s[i] == '"' {
            lemma_skip_composite_bounds(s, i + 1, depth, true, false);
        } else if s[i] == '{' || s[i] == '[' {
            lemma_skip_composite_bounds(s, i + 1, depth + 1, false, false);
        } else if s[i] == '}' || s[i] == ']' {
            if depth != 1 {
                lemma_skip_composite_bounds(s, i + 1, (depth - 1) as nat, false, false);
            }
        } else {
            lemma_skip_composite_bounds(s, i + 1, depth, false, false);
        }
    }
}

/// An unrecognized member's value, passed over without interpretation: a
/// string, a balanced bracketed composite, or a nonempty atom; the
/// value's own grammar is not checked.
pub open spec fn skip_value(s: Seq<char>, i: int) -> Option<int> {
    if !(0 <= i < s.len()) {
        None
    } else if s[i] == '"' {
        skip_string_any(s, i + 1)
    } else if s[i] == '{' || s[i] == '[' {
        skip_composite(s, i + 1, 1, false, false)
    } else {
        let j = scan_atom(s, i);
        if j > i {
            Some(j)
        } else {
            None
        }
    }
}

pub proof fn lemma_skip_value_bounds(s: Seq<char>, i: int)
    requires
        0 <= i <= s.len(),
        skip_value(s, i) is Some,
    ensures
        i < skip_value(s, i)->Some_0 <= s.len(),
{
    if i < s.len() && s[i] == '"' {
        lemma_skip_string_any_bounds(s, i + 1);
    } else if i < s.len() && (s[i] == '{' || s[i] == '[') {
        lemma_skip_composite_bounds(s, i + 1, 1, false, false);
    } else {
        lemma_scan_atom_bounds(s, i);
    }
}

/// The member keys the record reads; all other members are passed over.
pub open spec fn recognized_key(key: Seq<char>) -> bool {
    key == "api_key"@ || key == "email"@ || key == "subscription_tier"@
}

/// Folds one recognized member into the gathered fields, or rejects the
/// record: a recognized key must not repeat, `api_key` must be a string,
/// and the optional fields must be strings or null. Keys outside the
/// recognized three leave the fields unchanged.
pub open spec fn apply_member(acc: CredAcc, key: Seq<char>, v: JsonVal) -> Option<CredAcc> {
    if key == "api_key"@ {
        if acc.api_key is Some {
            None
        } else {
            match v {
                JsonVal::S(t) => Some(CredAcc { api_key: Some(t), ..acc }),
                _ => None,
            }
        }
    } else if key == "email"@ {
        if acc.email_seen {
            None
        } else {
            match v {
                JsonVal::S(t) => Some(CredAcc { email_seen: true, email: Some(t), ..acc }),
                JsonVal::Null => Some(CredAcc { email_seen: true, email: None, ..acc }),
                JsonVal::Other => None,
            }
        }
    } else if key == "subscription_tier"@ {
        if acc.tier_seen {
            None
        } else {
            match v {
                JsonVal::S(t) => Some(CredAcc { tier_seen: true, tier: Some(t), ..acc }),
                JsonVal::Null => Some(CredAcc { tier_seen: true, tier: None, ..acc }),
                JsonVal::Other => None,
            }
        }
    } else {
        Some(acc)
    }
}

/// A nonempty member list starting at the key's quote, up to and
/// including the closing brace.
pub open spec fn parse_members(s: Seq<char>, i: int, acc: CredAcc) -> Option<(CredAcc, int)>
    decreases s.len() - i,
        when 0 <= i <= s.len()
        via parse_members_decreases
{
    match parse_string(s, i) {
        None => None,
        Some(kj) => {
            let j2 = skip_ws(s, kj.1);
            if j2 < s.len() && s[j2] == ':' {
                let j3 = skip_ws(s, j2 + 1);
                let stepped: Option<(CredAcc, int)> = if recognized_key(kj.0) {
                    match parse_value(s, j3) {
                        None => None,
                        Some(vj) => match apply_member(acc, kj.0, vj.0) {
                            None => None,
                            Some(acc2) => Some((acc2, vj.1)),
                        },
                    }
                } else {
                    match skip_value(s, j3) {
                        None => None,
                        Some(j4) => Some((acc, j4)),
                    }
                };
                match stepped {
                    None => None,
                    Some(aj) => {
                        let j5 = skip_ws(s, aj.1);
                        if j5 < s.len() && s[j5] == ',' {
                            parse_members(s, skip_ws(s, j5 + 1), aj.0)
                        } else if j5 < s.len() && s[j5] == '}' {
                            Some((aj.0, j5 + 1))
                        } else {
                            None
                        }
                    }
                }
            } else {
                None
            }
        }
    }
}

#[via_fn]
proof fn parse_members_decreases(s: Seq<char>, i: int, acc: CredAcc) {
    if parse_string(s, i) is Some {
        lemma_parse_string_bounds(s, i);
        let kj = parse_string(s, i)->Some_0;
        lemma_skip_ws_bounds(s, kj.1);
        let j2 = skip_ws(s, kj.1);
        if j2 < s.len() && s[j2] == ':' {
            lemma_skip_ws_bounds(s, j2 + 1);
            let j3 = skip_ws(s, j2 + 1);
            if recognized_key(kj.0) {
                if parse_value(s, j3) is Some {
                    lemma_parse_value_bounds(s, j3);
                    let vj = parse_value(s, j3)->Some_0;
                    lemma_skip_ws_bounds(s, vj.1);
                    let j5 = skip_ws(s, vj.1);
                    if j5 < s.len() && s[j5] == ',' {
                        lemma_skip_ws_bounds(s, j5 + 1);
                    }
                }
            } else {
                if skip_value(s, j3) is Some {
                    lemma_skip_value_bounds(s, j3);
                    let j4 = skip_value(s, j3)->Some_0;
                    lemma_skip_ws_bounds(s, j4);
                    let j5 = skip_ws(s, j4);
                    if j5 < s.len() && s[j5] == ',' {
                        lemma_skip_ws_bounds(s, j5 + 1);
                    }
                }
            }
        }
    }
}


/// The credentials a whole text stands for: one JSON object, nothing but
/// whitespace around it, with an `api_key` string member.
pub open spec fn parse_credentials_json(s: Seq<char>) -> Option<ClaudeCredentialsV> {
    let i = skip_ws(s, 0);
    if i < s.len() && s[i] == '{' {
        let j = skip_ws(s, i + 1);
        let parsed = if j < s.len() && s[j] == '}' {
            Some((empty_acc(), j + 1))
        } else {
            parse_members(s, j, empty_acc())
        };
        match parsed {
            Some(ak) => {
                if skip_ws(s, ak.1) == s.len() {
                    match ak.0.api_key {
                        Some(key) => Some(ClaudeCredentialsV {
                            api_key: key,
                            email: ak.0.email,
                            subscription_tier: ak.0.tier,
                        }),
                        None => None,
                    }
                } else {
                    None
                }
            }
            None => None,
        }
    } else {
        None
    }
}

/// A string token's text prepended to a parse result.
pub open spec fn prepend_tail(
    pre: Seq<char>,
    r: Option<(Seq<char>, int)>,
) -> Option<(Seq<char>, int)> {
    match r {
        Some(tj) => Some((pre + tj.0, tj.1)),
        None => None,
    }
}

proof fn lemma_prepend_compose(a: Seq<char>, b: Seq<char>, r: Option<(Seq<char>, int)>)
    ensures
        prepend_tail(a, prepend_tail(b, r)) == prepend_tail(a + b, r),
{
    match r {
        Some(tj) => {
            assert(a + (b + tj.0) =~= (a + b) + tj.0);
        }
        None => {}
    }
}

/// The executable form of a member value.
pub enum JsonValE {
    S(String),
    Null,
    Other,
}

impl View for JsonValE {
    type V = JsonVal;

    open spec fn view(&self) -> JsonVal {
        match self {
            JsonValE::S(t) => JsonVal::S(t@),
            JsonValE::Null => JsonVal::Null,
            JsonValE::Other => JsonVal::Other,
        }
    }
}

/// The executable form of the gathered fields.
pub struct CredAccE {
    pub api_key: Option<String>,
    pub email_seen: bool,
    pub email: Option<String>,
    pub tier_seen: bool,
    pub tier: Option<String>,
}

impl View for CredAccE {
    type V = CredAcc;

    open spec fn view(&self) -> CredAcc {
        CredAcc {
            api_key: crate::types::opt_view(self.api_key),
            email_seen: self.email_seen,
            email: crate::types::opt_view(self.email),
            tier_seen: self.tier_seen,
            tier: crate::types::opt_view(self.tier),
        }
    }
}

fn skip_ws_exec(s: &str, n: usize, i: usize) -> (r: usize)
    requires
        n == s@.len(),
        i <= n,
    ensures
        r as int == skip_ws(s@, i as int),
        i <= r <= n,
    decreases n - i,
{
    if i < n {
        let c = s.get_char(i);
        if c == ' ' || c == '\t' || c == '\n' || c == '\r' {
            return skip_ws_exec(s, n, i + 1);
        }
    }
    i
}

/// The one-character text an escape sequence stands for.
fn unescape_str(e: char) -> (r: Option<&'static str>)
    ensures
        match r {
            Some(t) => unescape(e) is Some && t@ =~= seq![unescape(e)->Some_0],
            None => unescape(e) is None,
        },
{
    if e == '"' {
        proof { reveal_strlit("\""); }
        Some("\"")
    } else if e == '\\' {
        proof { reveal_strlit("\\"); }
        Some("\\")
    } else if e == '/' {
        proof { reveal_strlit("/"); }
        Some("/")
    } else if e == 'n' {
        proof { reveal_strlit("\n"); }
        Some("\n")
    } else if e == 't' {
        proof { reveal_strlit("\t"); }
        Some("\t")
    } else if e == 'r' {
        proof { reveal_strlit("\r"); }
        Some("\r")
    } else if e == 'b' {
        proof { reveal_strlit("\u{8}"); }
        Some("\u{8}")
    } else if e == 'f' {
        proof { reveal_strlit("\u{c}"); }
        Some("\u{c}")
    } else {
        None
    }
}

/// Reads a string token's remainder, building its text from the unescaped
/// pieces.
fn parse_string_tail_exec(s: &str, n: usize, i: usize) -> (r: Option<(String, usize)>)
    requires
        n == s@.len(),
        i <= n,
    ensures
        match r {
            Some(tj) => parse_string_tail(s@, i as int) == Some((tj.0@, tj.1 as int))
                && i < tj.1 <= n,
            None => (parse_string_tail(s@, i as int) is None),
        },
{
    let mut out = String::new();
    let mut run_start: usize = i;
    let mut pos: usize = i;
    loop
        invariant
            n == s@.len(),
            i <= run_start <= pos <= n,
            parse_string_tail(s@, i as int) == prepend_tail(
                out@ + s@.subrange(run_start as int, pos as int),
                parse_string_tail(s@, pos as int),
            ),
        decreases n - pos,
    {
        if pos >= n {
            proof {
                assert(parse_string_tail(s@, i as int) is None);
            }
            return None;
        }
        let c = s.get_char(pos);
        if c == '"' {
            let piece = s.substring_char(run_start, pos);
            out.append(piece);
            proof {
                lemma_parse_string_tail_bounds(s@, i as int);
                assert(out@ + Seq::<char>::empty() =~= out@);
            }
            return Some((out, pos + 1));
        } else if c == '\\' {
            if pos + 1 >= n {
                return None;
            }
            let e = s.get_char(pos + 1);
            match unescape_str(e) {
                None => {
                    return None;
                }
                Some(esc) => {
                    let ghost out0 = out@;
                    let piece = s.substring_char(run_start, pos);
                    out.append(piece);
                    out.append(esc);
                    proof {
                        let pre = out0 + s@.subrange(run_start as int, pos as int);
                        let ec = unescape(e)->Some_0;
                        assert(parse_string_tail(s@, pos as int)
                            == prepend_tail(seq![ec], parse_string_tail(s@, pos + 2 as int)));
                        lemma_prepend_compose(pre, seq![ec], parse_string_tail(s@, pos + 2 as int));
                        assert(out@ =~= pre + seq![ec]);
                        assert(out@ + s@.subrange(pos + 2 as int, pos + 2 as int) =~= out@);
                    }
                    run_start = pos + 2;
                    pos = pos + 2;
                }
            }
        } else {
            proof {
                assert(parse_string_tail(s@, pos as int)
                    == prepend_tail(seq![s@[pos as int]], parse_string_tail(s@, pos + 1 as int)));
                let pre = out@ + s@.subrange(run_start as int, pos as int);
                lemma_prepend_compose(pre, seq![s@[pos as int]], parse_string_tail(s@, pos + 1 as int));
                assert(pre + seq![s@[pos as int]]
                    =~= out@ + s@.subrange(run_start as int, pos + 1 as int));
            }
            pos = pos + 1;
        }
    }
}

/// Reads a whole string token starting at `i`.
fn parse_string_exec(s: &str, n: usize, i: usize) -> (r: Option<(String, usize)>)
    requires
        n == s@.len(),
        i <= n,
    ensures
        match r {
            Some(tj) => parse_string(s@, i as int) == Some((tj.0@, tj.1 as int))
                && i < tj.1 <= n,
            None => (parse_string(s@, i as int) is None),
        },
{
    if i < n && s.get_char(i) == '"' {
        parse_string_tail_exec(s, n, i + 1)
    } else {
        None
    }
}

fn scan_atom_exec(s: &str, n: usize, i: usize) -> (r: usize)
    requires
        n == s@.len(),
        i <= n,
    ensures
        r as int == scan_atom(s@, i as int),
        i <= r <= n,
    decreases n - i,
{
    if i < n {
        let c = s.get_char(i);
        if (c >= '0' && c <= '9') || (c >= 'a' && c <= 'z') || (c >= 'A' && c <= 'Z')
            || c == '-' || c == '+' || c == '.' {
            return scan_atom_exec(s, n, i + 1);
        }
    }
    i
}

/// Reads a member value starting at `i`.
fn parse_value_exec(s: &str, n: usize, i: usize) -> (r: Option<(JsonValE, usize)>)
    requires
        n == s@.len(),
        i <= n,
    ensures
        match r {
            Some(vj) => parse_value(s@, i as int) == Some((vj.0@, vj.1 as int))
                && i < vj.1 <= n,
            None => (parse_value(s@, i as int) is None),
        },
{
    if i < n && s.get_char(i) == '"' {
        match parse_string_tail_exec(s, n, i + 1) {
            Some((t, j)) => Some((JsonValE::S(t), j)),
            None => None,
        }
    } else {
        let j = scan_atom_exec(s, n, i);
        if j > i {
            let t = s.substring_char(i, j);
            let ts = String::from_str(t);
            let is_null = ts == String::from_str("null");
            let is_true = ts == String::from_str("true");
            let is_false = ts == String::from_str("false");
            let mut numeric = true;
            let mut k: usize = i;
            while k < j
                invariant
                    n == s@.len(),
                    i <= k <= j <= n,
                    numeric == (forall|m: int| i <= m < k ==> is_number_char(#[trigger] s@[m])),
                decreases j - k,
            {
                let c = s.get_char(k);
                if !((c >= '0' && c <= '9') || c == '-' || c == '+' || c == '.' || c == 'e'
                    || c == 'E') {
                    numeric = false;
                }
                k = k + 1;
            }
            proof {
                assert(t@ == s@.subrange(i as int, j as int));
                assert(numeric == (forall|m: int| 0 <= m < t@.len()
                    ==> is_number_char(#[trigger] t@[m]))) by {
                    if numeric {
                        assert forall|m: int| 0 <= m < t@.len()
                            implies is_number_char(#[trigger] t@[m]) by {
                            assert(t@[m] == s@[i + m]);
                        }
                    } else {
                        let w = choose|m: int| i <= m < j && !is_number_char(#[trigger] s@[m]);
                        assert(t@[w - i] == s@[w]);
                    }
                }
            }
            if is_null {
                Some((JsonValE::Null, j))
            } else if is_true || is_false || numeric {
                Some((JsonValE::Other, j))
            } else {
                proof {
                    assert(!atom_ok(s@.subrange(i as int, j as int)));
                }
                None
            }
        } else {
            None
        }
    }
}

/// Folds one member into the gathered fields, or rejects the record.
fn apply_member_exec(acc: CredAccE, key: &String, v: JsonValE) -> (r: Option<CredAccE>)
    ensures
        match r {
            Some(a) => apply_member(acc@, key@, v@) == Some(a@),
            None => (apply_member(acc@, key@, v@) is None),
        },
{
    if *key == String::from_str("api_key") {
        if acc.api_key.is_some() {
            None
        } else {
            match v {
                JsonValE::S(t) => Some(CredAccE { api_key: Some(t), ..acc }),
                _ => None,
            }
        }
    } else if *key == String::from_str("email") {
        if acc.email_seen {
            None
        } else {
            match v {
                JsonValE::S(t) => Some(CredAccE { email_seen: true, email: Some(t), ..acc }),
                JsonValE::Null => Some(CredAccE { email_seen: true, email: None, ..acc }),
                JsonValE::Other => None,
            }
        }
    } else if *key == String::from_str("subscription_tier") {
        if acc.tier_seen {
            None
        } else {
            match v {
                JsonValE::S(t) => Some(CredAccE { tier_seen: true, tier: Some(t), ..acc }),
                JsonValE::Null => Some(CredAccE { tier_seen: true, tier: None, ..acc }),
                JsonValE::Other => None,
            }
        }
    } else {
        Some(acc)
    }
}

/// Passes over a string's remainder without interpreting it.
fn skip_string_any_exec(s: &str, n: usize, i: usize) -> (r: Option<usize>)
    requires
        n == s@.len(),
        i <= n,
    ensures
        match r {
            Some(j) => skip_string_any(s@, i as int) == Some(j as int) && i < j <= n,
            None => (skip_string_any(s@, i as int) is None),
        },
    decreases n - i,
{
    if i >= n {
        return None;
    }
    let c = s.get_char(i);
    if c == '"' {
        Some(i + 1)
    } else if c == '\\' {
        if i + 1 < n {
            skip_string_any_exec(s, n, i + 2)
        } else {
            None
        }
    } else {
        skip_string_any_exec(s, n, i + 1)
    }
}

/// Passes over a bracketed value, counting brackets outside strings.
fn skip_composite_exec(
    s: &str,
    n: usize,
    i: usize,
    depth: usize,
    in_str: bool,
    esc: bool,
) -> (r: Option<usize>)
    requires
        n == s@.len(),
        i <= n,
        1 <= depth <= i,
    ensures
        match r {
            Some(j) => skip_composite(s@, i as int, depth as nat, in_str, esc)
                == Some(j as int) && i < j <= n,
            None => (skip_composite(s@, i as int, depth as nat, in_str, esc) is None),
        },
    decreases n - i,
{
    if i >= n {
        return None;
    }
    let c = s.get_char(i);
    if esc {
        skip_composite_exec(s, n, i + 1, depth, in_str, false)
    } else if in_str {
        if c == '\\' {
            skip_composite_exec(s, n, i + 1, depth, true, true)
        } else if c == '"' {
            skip_composite_exec(s, n, i + 1, depth, false, false)
        } else {
            skip_composite_exec(s, n, i + 1, depth, true, false)
        }
    } else if c == '"' {
        skip_composite_exec(s, n, i + 1, depth, true, false)
    } else if c == '{' || c == '[' {
        skip_composite_exec(s, n, i + 1, depth + 1, false, false)
    } else if c == '}' || c == ']' {
        if depth == 1 {
            Some(i + 1)
        } else {
            skip_composite_exec(s, n, i + 1, depth - 1, false, false)
        }
    } else {
        skip_composite_exec(s, n, i + 1, depth, false, false)
    }
}

/// Passes over an unrecognized member's value.
fn skip_value_exec(s: &str, n: usize, i: usize) -> (r: Option<usize>)
    requires
        n == s@.len(),
        i <= n,
    ensures
        match r {
            Some(j) => skip_value(s@, i as int) == Some(j as int) && i < j <= n,
            None => (skip_value(s@, i as int) is None),
        },
{
    if i >= n {
        return None;
    }
    let c = s.get_char(i);
    if c == '"' {
        skip_string_any_exec(s, n, i + 1)
    } else if c == '{' || c == '[' {
        skip_composite_exec(s, n, i + 1, 1, false, false)
    } else {
        let j = scan_atom_exec(s, n, i);
        if j > i {
            Some(j)
        } else {
            None
        }
    }
}

/// Reads a nonempty member list up to and including the closing brace.
fn parse_members_exec(s: &str, n: usize, i: usize, acc: CredAccE) -> (r: Option<(CredAccE, usize)>)
    requires
        n == s@.len(),
        i <= n,
    ensures
        match r {
            Some(aj) => parse_members(s@, i as int, acc@) == Some((aj.0@, aj.1 as int))
                && i < aj.1 <= n,
            None => (parse_members(s@, i as int, acc@) is None),
        },
    decreases n - i,
{
    match parse_string_exec(s, n, i) {
        None => None,
        Some((key, j)) => {
            let j2 = skip_ws_exec(s, n, j);
            if j2 < n && s.get_char(j2) == ':' {
                let j3 = skip_ws_exec(s, n, j2 + 1);
                let recognized = key == String::from_str("api_key")
                    || key == String::from_str("email")
                    || key == String::from_str("subscription_tier");
                let stepped: Option<(CredAccE, usize)> = if recognized {
                    match parse_value_exec(s, n, j3) {
                        None => None,
                        Some((v, j4)) => {
                            match apply_member_exec(acc, &key, v) {
                                None => None,
                                Some(acc2) => Some((acc2, j4)),
                            }
                        }
                    }
                } else {
                    match skip_value_exec(s, n, j3) {
                        None => None,
                        Some(j4) => Some((acc, j4)),
                    }
                };
                match stepped {
                    None => None,
                    Some((acc2, j4)) => {
                        let j5 = skip_ws_exec(s, n, j4);
                        if j5 < n && s.get_char(j5) == ',' {
                            let j6 = skip_ws_exec(s, n, j5 + 1);
                            parse_members_exec(s, n, j6, acc2)
                        } else if j5 < n && s.get_char(j5) == '}' {
                            Some((acc2, j5 + 1))
                        } else {
                            None
                        }
                    }
                }
            } else {
                None
            }
        }
    }
}

/// Parses a whole text as a credential record: one JSON object with an
/// `api_key` string member, nothing but whitespace around it.
pub fn parse_credentials_json_str(s: &str) -> (r: Option<ClaudeCredentials>)
    ensures
        match r {
            Some(c) => parse_credentials_json(s@) == Some(c@),
            None => (parse_credentials_json(s@) is None),
        },
{
    let n = s.unicode_len();
    let i = skip_ws_exec(s, n, 0);
    if i < n && s.get_char(i) == '{' {
        let j = skip_ws_exec(s, n, i + 1);
        let parsed: Option<(CredAccE, usize)> = if j < n && s.get_char(j) == '}' {
            let acc = CredAccE {
                api_key: None,
                email_seen: false,
                email: None,
                tier_seen: false,
                tier: None,
            };
            proof {
                assert(acc@ =~= empty_acc());
            }
            Some((acc, j + 1))
        } else {
            let acc = CredAccE {
                api_key: None,
                email_seen: false,
                email: None,
                tier_seen: false,
                tier: None,
            };
            proof {
                assert(acc@ =~= empty_acc());
            }
            parse_members_exec(s, n, j, acc)
        };
        match parsed {
            Some((acc, k)) => {
                if skip_ws_exec(s, n, k) == n {
                    match acc.api_key {
                        Some(key) => Some(ClaudeCredentials {
                            api_key: key,
                            email: acc.email,
                            subscription_tier: acc.tier,
                        }),
                        None => None,
                    }
                } else {
                    None
                }
            }
            None => None,
        }
    } else {
        None
    }
}

} // verus!
