//! A parser for the flat JSON objects the pool protocol exchanges: one
//! object of string, integer, `null`, `true` and `false` members. Strings
//! carry no escapes and numbers no fraction or exponent; nothing in the
//! protocol uses either. Duplicate keys keep the last value, as a map
//! built from the members would.

use vstd::prelude::*;

verus! {

/// One member's value.
pub enum Scalar {
    /// A string's characters, quotes stripped.
    Str(Seq<char>),
    /// An integer: its sign and its digits.
    Num(bool, Seq<char>),
    /// One of the words `null`, `true`, `false`.
    Lit(Seq<char>),
}

/// One member's value, as parsed.
pub enum ScalarValue {
    Str(String),
    Num(bool, String),
    NullLit,
    TrueLit,
    FalseLit,
}

impl ScalarValue {
    /// The value this scalar stands for.
    pub open spec fn view_scalar(self) -> Scalar {
        match self {
            ScalarValue::Str(s) => Scalar::Str(s@),
            ScalarValue::Num(neg, d) => Scalar::Num(neg, d@),
            ScalarValue::NullLit => Scalar::Lit(seq!['n', 'u', 'l', 'l']),
            ScalarValue::TrueLit => Scalar::Lit(seq!['t', 'r', 'u', 'e']),
            ScalarValue::FalseLit => Scalar::Lit(seq!['f', 'a', 'l', 's', 'e']),
        }
    }
}

/// JSON whitespace.
pub open spec fn is_ws(c: char) -> bool {
    c == ' ' || c == '\t' || c == '\n' || c == '\r'
}

/// Index of the first non-whitespace character at or after `from`, or the
/// length.
pub open spec fn spec_skip_ws(s: Seq<char>, from: int) -> int
    decreases s.len() - from,
{
    if from < 0 || from >= s.len() {
        s.len() as int
    } else if is_ws(s[from]) {
        spec_skip_ws(s, from + 1)
    } else {
        from
    }
}

/// Index of the first quote or backslash at or after `from`, or the length.
pub open spec fn spec_scan_string(s: Seq<char>, from: int) -> int
    decreases s.len() - from,
{
    if from < 0 || from >= s.len() {
        s.len() as int
    } else if s[from] == '"' || s[from] == '\\' {
        from
    } else {
        spec_scan_string(s, from + 1)
    }
}

/// Index of the first non-digit at or after `from`, or the length.
pub open spec fn spec_scan_digits(s: Seq<char>, from: int) -> int
    decreases s.len() - from,
{
    if from < 0 || from >= s.len() {
        s.len() as int
    } else if crate::decimal::is_dec_digit(s[from]) {
        spec_scan_digits(s, from + 1)
    } else {
        from
    }
}

/// The scalar starting exactly at `i`, and the index just past it.
pub open spec fn spec_scalar_at(s: Seq<char>, i: int) -> Option<(Scalar, int)> {
    if 0 <= i < s.len() {
        let c = s[i];
        if c == '"' {
            let e = spec_scan_string(s, i + 1);
            if e < s.len() && s[e] == '"' {
                Some((Scalar::Str(s.subrange(i + 1, e)), e + 1))
            } else {
                None
            }
        } else if c == '-' {
            let e = spec_scan_digits(s, i + 1);
            if e > i + 1 {
                Some((Scalar::Num(true, s.subrange(i + 1, e)), e))
            } else {
                None
            }
        } else if crate::decimal::is_dec_digit(c) {
            let e = spec_scan_digits(s, i);
            Some((Scalar::Num(false, s.subrange(i, e)), e))
        } else if c == 'n' {
            if i + 4 <= s.len() && s.subrange(i, i + 4) == seq!['n', 'u', 'l', 'l'] {
                Some((Scalar::Lit(seq!['n', 'u', 'l', 'l']), i + 4))
            } else {
                None
            }
        } else if c == 't' {
            if i + 4 <= s.len() && s.subrange(i, i + 4) == seq!['t', 'r', 'u', 'e'] {
                Some((Scalar::Lit(seq!['t', 'r', 'u', 'e']), i + 4))
            } else {
                None
            }
        } else if c == 'f' {
            if i + 5 <= s.len() && s.subrange(i, i + 5) == seq!['f', 'a', 'l', 's', 'e'] {
                Some((Scalar::Lit(seq!['f', 'a', 'l', 's', 'e']), i + 5))
            } else {
                None
            }
        } else {
            None
        }
    } else {
        None
    }
}

/// The `"key": value` member starting at `i` (no leading whitespace), and
/// the index just past its value.
pub open spec fn spec_member_at(s: Seq<char>, i: int) -> Option<((Seq<char>, Scalar), int)> {
    if 0 <= i < s.len() && s[i] == '"' {
        let e = spec_scan_string(s, i + 1);
        if e < s.len() && s[e] == '"' {
            let key = s.subrange(i + 1, e);
            let c = spec_skip_ws(s, e + 1);
            if c < s.len() && s[c] == ':' {
                let v = spec_skip_ws(s, c + 1);
                match spec_scalar_at(s, v) {
                    Some((val, e2)) => Some(((key, val), e2)),
                    None => None,
                }
            } else {
                None
            }
        } else {
            None
        }
    } else {
        None
    }
}

/// The members from position `i` (just after `{` or `,`) to the closing
/// `}`, and the index just past that brace.
pub open spec fn spec_members_from(s: Seq<char>, i: int) -> Option<(Seq<(Seq<char>, Scalar)>, int)>
    decreases s.len() - i,
{
    let j = spec_skip_ws(s, i);
    match spec_member_at(s, j) {
        None => None,
        Some((m, e)) => {
            let k = spec_skip_ws(s, e);
            if k < s.len() && s[k] == '}' {
                Some((seq![m], k + 1))
            } else if k < s.len() && s[k] == ',' && k + 1 > i {
                match spec_members_from(s, k + 1) {
                    None => None,
                    Some((ms, e2)) => Some((seq![m] + ms, e2)),
                }
            } else {
                None
            }
        },
    }
}

/// The members of the whole text read as one object, with nothing but
/// whitespace around it.
pub open spec fn spec_object(s: Seq<char>) -> Option<Seq<(Seq<char>, Scalar)>> {
    let i = spec_skip_ws(s, 0);
    if i < s.len() && s[i] == '{' {
        let j = spec_skip_ws(s, i + 1);
        if j < s.len() && s[j] == '}' {
            if spec_skip_ws(s, j + 1) == s.len() {
                Some(Seq::empty())
            } else {
                None
            }
        } else {
            match spec_members_from(s, i + 1) {
                Some((ms, e)) => if spec_skip_ws(s, e) == s.len() {
                    Some(ms)
                } else {
                    None
                },
                None => None,
            }
        }
    } else {
        None
    }
}

/// The members of an exec parse, as the spec sees them.
pub open spec fn members_view(v: Seq<(String, ScalarValue)>) -> Seq<(Seq<char>, Scalar)> {
    v.map_values(|p: (String, ScalarValue)| (p.0@, p.1.view_scalar()))
}

/// Index of the first non-whitespace character at or after `from`, or the
/// length.
fn skip_ws(s: &str, from: usize) -> (r: usize)
    requires
        from <= s@.len(),
    ensures
        r == spec_skip_ws(s@, from as int),
        from <= r <= s@.len(),
{
    let len = s.unicode_len();
    let mut i = from;
    while i < len
        invariant
            from <= i <= len,
            len == s@.len(),
            spec_skip_ws(s@, from as int) == spec_skip_ws(s@, i as int),
        decreases len - i,
    {
        let c = s.get_char(i);
        if !(c == ' ' || c == '\t' || c == '\n' || c == '\r') {
            return i;
        }
        i = i + 1;
    }
    len
}

/// Index of the first quote or backslash at or after `from`, or the length.
fn scan_string(s: &str, from: usize) -> (r: usize)
    requires
        from <= s@.len(),
    ensures
        r == spec_scan_string(s@, from as int),
        from <= r <= s@.len(),
{
    let len = s.unicode_len();
    let mut i = from;
    while i < len
        invariant
            from <= i <= len,
            len == s@.len(),
            spec_scan_string(s@, from as int) == spec_scan_string(s@, i as int),
        decreases len - i,
    {
        let c = s.get_char(i);
        if c == '"' || c == '\\' {
            return i;
        }
        i = i + 1;
    }
    len
}

/// Index of the first non-digit at or after `from`, or the length.
fn scan_digits(s: &str, from: usize) -> (r: usize)
    requires
        from <= s@.len(),
    ensures
        r == spec_scan_digits(s@, from as int),
        from <= r <= s@.len(),
{
    let len = s.unicode_len();
    let mut i = from;
    while i < len
        invariant
            from <= i <= len,
            len == s@.len(),
            spec_scan_digits(s@, from as int) == spec_scan_digits(s@, i as int),
        decreases len - i,
    {
        let c = s.get_char(i);
        if !('0' <= c && c <= '9') {
            return i;
        }
        i = i + 1;
    }
    len
}

/// Parses the scalar starting exactly at `i`.
fn scalar_at(s: &str, i: usize) -> (r: Option<(ScalarValue, usize)>)
    requires
        i <= s@.len(),
    ensures
        r is Some <==> spec_scalar_at(s@, i as int) is Some,
        r matches Some((v, e)) ==> spec_scalar_at(s@, i as int) == Some(
            (v.view_scalar(), e as int),
        ) && i < e <= s@.len(),
{
    let len = s.unicode_len();
    if i >= len {
        return None;
    }
    let c = s.get_char(i);
    if c == '"' {
        let e = scan_string(s, i + 1);
        if e < len && s.get_char(e) == '"' {
            let body = s.substring_char(i + 1, e).to_owned();
            Some((ScalarValue::Str(body), e + 1))
        } else {
            None
        }
    } else if c == '-' {
        let e = scan_digits(s, i + 1);
        if e > i + 1 {
            let digits = s.substring_char(i + 1, e).to_owned();
            Some((ScalarValue::Num(true, digits), e))
        } else {
            None
        }
    } else if '0' <= c && c <= '9' {
        let e = scan_digits(s, i + 1);
        proof {
            assert(spec_scan_digits(s@, i as int) == spec_scan_digits(s@, i as int + 1));
        }
        let digits = s.substring_char(i, e).to_owned();
        Some((ScalarValue::Num(false, digits), e))
    } else if c == 'n' {
        if len - i >= 4 && s.get_char(i + 1) == 'u' && s.get_char(i + 2) == 'l' && s.get_char(
            i + 3,
        ) == 'l' {
            proof {
                assert(s@.subrange(i as int, i as int + 4) =~= seq!['n', 'u', 'l', 'l']);
            }
            Some((ScalarValue::NullLit, i + 4))
        } else {
            proof {
                if i + 4 <= s@.len() {
                    assert(s@.subrange(i as int, i as int + 4) != seq!['n', 'u', 'l', 'l']) by {
                        assert(s@.subrange(i as int, i as int + 4)[1] == s@[i as int + 1]);
                        assert(s@.subrange(i as int, i as int + 4)[2] == s@[i as int + 2]);
                        assert(s@.subrange(i as int, i as int + 4)[3] == s@[i as int + 3]);
                    }
                }
            }
            None
        }
    } else if c == 't' {
        if len - i >= 4 && s.get_char(i + 1) == 'r' && s.get_char(i + 2) == 'u' && s.get_char(
            i + 3,
        ) == 'e' {
            proof {
                assert(s@.subrange(i as int, i as int + 4) =~= seq!['t', 'r', 'u', 'e']);
            }
            Some((ScalarValue::TrueLit, i + 4))
        } else {
            proof {
                if i + 4 <= s@.len() {
                    assert(s@.subrange(i as int, i as int + 4) != seq!['t', 'r', 'u', 'e']) by {
                        assert(s@.subrange(i as int, i as int + 4)[1] == s@[i as int + 1]);
                        assert(s@.subrange(i as int, i as int + 4)[2] == s@[i as int + 2]);
                        assert(s@.subrange(i as int, i as int + 4)[3] == s@[i as int + 3]);
                    }
                }
            }
            None
        }
    } else if c == 'f' {
        if len - i >= 5 && s.get_char(i + 1) == 'a' && s.get_char(i + 2) == 'l' && s.get_char(
            i + 3,
        ) == 's' && s.get_char(i + 4) == 'e' {
            proof {
                assert(s@.subrange(i as int, i as int + 5) =~= seq!['f', 'a', 'l', 's', 'e']);
            }
            Some((ScalarValue::FalseLit, i + 5))
        } else {
            proof {
                if i + 5 <= s@.len() {
                    assert(s@.subrange(i as int, i as int + 5) != seq!['f', 'a', 'l', 's', 'e'])
                        by {
                        assert(s@.subrange(i as int, i as int + 5)[1] == s@[i as int + 1]);
                        assert(s@.subrange(i as int, i as int + 5)[2] == s@[i as int + 2]);
                        assert(s@.subrange(i as int, i as int + 5)[3] == s@[i as int + 3]);
                        assert(s@.subrange(i as int, i as int + 5)[4] == s@[i as int + 4]);
                    }
                }
            }
            None
        }
    } else {
        None
    }
}

/// Parses the `"key": value` member starting exactly at `i`.
fn member_at(s: &str, i: usize) -> (r: Option<((String, ScalarValue), usize)>)
    requires
        i <= s@.len(),
    ensures
        r is Some <==> spec_member_at(s@, i as int) is Some,
        r matches Some((m, e)) ==> spec_member_at(s@, i as int) == Some(
            ((m.0@, m.1.view_scalar()), e as int),
        ) && i < e <= s@.len(),
{
    let len = s.unicode_len();
    if i >= len || s.get_char(i) != '"' {
        return None;
    }
    let e = scan_string(s, i + 1);
    if !(e < len && s.get_char(e) == '"') {
        return None;
    }
    let key = s.substring_char(i + 1, e).to_owned();
    let c = skip_ws(s, e + 1);
    if !(c < len && s.get_char(c) == ':') {
        return None;
    }
    let v = skip_ws(s, c + 1);
    match scalar_at(s, v) {
        Some((val, e2)) => Some(((key, val), e2)),
        None => None,
    }
}

/// Parses the whole text as one object and hands its members back in order.
pub fn parse_object(s: &str) -> (r: Option<Vec<(String, ScalarValue)>>)
    ensures
        r is Some <==> spec_object(s@) is Some,
        r matches Some(v) ==> Some(members_view(v@)) == spec_object(s@),
{
    let len = s.unicode_len();
    let i = skip_ws(s, 0);
    if !(i < len && s.get_char(i) == '{') {
        return None;
    }
    let j = skip_ws(s, i + 1);
    if j < len && s.get_char(j) == '}' {
        if skip_ws(s, j + 1) == len {
            let out: Vec<(String, ScalarValue)> = Vec::new();
            proof {
                assert(members_view(out@) =~= Seq::<(Seq<char>, Scalar)>::empty());
            }
            return Some(out);
        } else {
            return None;
        }
    }
    let mut out: Vec<(String, ScalarValue)> = Vec::new();
    let mut cur: usize = i + 1;
    let ghost start: int = i + 1;
    loop
        invariant
            cur <= s@.len(),
            len == s@.len(),
            spec_members_from(s@, start) == (match spec_members_from(s@, cur as int) {
                None => None::<(Seq<(Seq<char>, Scalar)>, int)>,
                Some((rest, e)) => Some((members_view(out@) + rest, e)),
            }),
            spec_object(s@) == (match spec_members_from(s@, start) {
                Some((ms, e)) => if spec_skip_ws(s@, e) == s@.len() {
                    Some(ms)
                } else {
                    None::<Seq<(Seq<char>, Scalar)>>
                },
                None => None::<Seq<(Seq<char>, Scalar)>>,
            }),
        decreases s@.len() - cur,
    {
        let j2 = skip_ws(s, cur);
        let (m, e) = match member_at(s, j2) {
            Some(r) => r,
            None => {
                return None;
            },
        };
        let k = skip_ws(s, e);
        proof {
            assert(members_view(out@.push(m)) =~= members_view(out@).push(
                (m.0@, m.1.view_scalar()),
            ));
        }
        if k < len && s.get_char(k) == '}' {
            out.push(m);
            proof {
                let ghost mm = (m.0@, m.1.view_scalar());
                assert(seq![mm] =~= Seq::<(Seq<char>, Scalar)>::empty().push(mm));
                assert(members_view(out@) =~= members_view(out@.drop_last()) + seq![mm]);
            }
            if skip_ws(s, k + 1) == len {
                return Some(out);
            } else {
                return None;
            }
        } else if k < len && s.get_char(k) == ',' && k + 1 > cur {
            out.push(m);
            proof {
                let mm = (m.0@, m.1.view_scalar());
                assert(members_view(out@) =~= members_view(out@.drop_last()).push(mm));
                match spec_members_from(s@, k + 1) {
                    Some((rest, _e)) => {
                        assert(members_view(out@.drop_last()) + (seq![mm] + rest)
                            =~= members_view(out@) + rest);
                    },
                    None => {},
                }
            }
            cur = k + 1;
        } else {
            return None;
        }
    }
}

/// The value of the last member with this key, if any.
pub open spec fn spec_lookup(ms: Seq<(Seq<char>, Scalar)>, key: Seq<char>) -> Option<Scalar>
    decreases ms.len(),
{
    if ms.len() == 0 {
        None
    } else if ms.last().0 == key {
        Some(ms.last().1)
    } else {
        spec_lookup(ms.drop_last(), key)
    }
}

/// One step of a lookup, read off the last member.
pub proof fn lemma_lookup_unstep(ms: Seq<(Seq<char>, Scalar)>, key: Seq<char>)
    requires
        ms.len() > 0,
    ensures
        spec_lookup(ms, key) == if ms.last().0 == key {
            Some(ms.last().1)
        } else {
            spec_lookup(ms.drop_last(), key)
        },
{
}

} // verus!
