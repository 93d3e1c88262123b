//! Decoding of the management plane's JSON responses: a session-creation
//! response is one bare JSON string, and an inventory response is an array
//! of flat objects with string, integer, boolean and null fields. The
//! grammar is stated by spec functions; the executable parser is proved to
//! return exactly what they describe. Number fields are accepted as
//! integers only, and the `\u` string escape is not accepted.
use vstd::prelude::*;

verus! {

/// A scalar field value inside a response object.
pub enum Scalar {
    Null,
    Bool(bool),
    Int(i64),
    Str(String),
}

/// Mathematical model of a `Scalar`.
pub enum ScalarData {
    Null,
    Bool(bool),
    Int(i64),
    Str(Seq<char>),
}

impl View for Scalar {
    type V = ScalarData;

    open spec fn view(&self) -> ScalarData {
        match self {
            Scalar::Null => ScalarData::Null,
            Scalar::Bool(b) => ScalarData::Bool(*b),
            Scalar::Int(n) => ScalarData::Int(*n),
            Scalar::Str(s) => ScalarData::Str(s@),
        }
    }
}

impl DeepView for Scalar {
    type V = ScalarData;

    open spec fn deep_view(&self) -> ScalarData {
        self.view()
    }
}

/// Relies on `String::push`: appends the given character to the end of the
/// string.
#[verifier::external_body]
pub(crate) fn push_char(s: &mut String, c: char)
    ensures
        final(s)@ == old(s)@.push(c),
{
    s.push(c);
}

pub open spec fn is_ws(c: char) -> bool {
    c == ' ' || c == '\t' || c == '\n' || c == '\r'
}

/// First index at or after `i` holding a non-whitespace character.
pub open spec fn spec_skip_ws(s: Seq<char>, i: int) -> int
    decreases s.len() - i,
{
    if i < s.len() && is_ws(s[i]) {
        spec_skip_ws(s, i + 1)
    } else {
        i
    }
}

fn is_ws_char(c: char) -> (r: bool)
    ensures
        r == is_ws(c),
{
    c == ' ' || c == '\t' || c == '\n' || c == '\r'
}

pub fn skip_ws(s: &str, n: usize, i: usize) -> (r: usize)
    requires
        n == s@.len(),
        i <= n,
    ensures
        r == spec_skip_ws(s@, i as int),
        i <= r <= n,
{
    let mut j = i;
    while j < n && is_ws_char(s.get_char(j))
        invariant
            n == s@.len(),
            i <= j <= n,
            spec_skip_ws(s@, i as int) == spec_skip_ws(s@, j as int),
        decreases n - j,
    {
        j += 1;
    }
    j
}

/// The character a single-letter string escape stands for; `None` for an
/// escape the decoder does not accept.
pub open spec fn spec_escape_char(c: char) -> Option<char> {
    if c == '"' {
        Some('"')
    } else if c == '\\' {
        Some('\\')
    } else if c == '/' {
        Some('/')
    } else if c == 'n' {
        Some('\n')
    } else if c == 't' {
        Some('\t')
    } else if c == 'r' {
        Some('\r')
    } else if c == 'b' {
        Some('\u{0008}')
    } else if c == 'f' {
        Some('\u{000C}')
    } else {
        None
    }
}

/// Body of a string literal from `i` (just past the opening quote) to its
/// closing quote: the decoded characters so far are `acc`.
pub open spec fn spec_string_body(s: Seq<char>, i: int, acc: Seq<char>) -> Option<(Seq<char>, int)>
    decreases s.len() - i,
{
    if i >= s.len() {
        None
    } else if s[i] == '"' {
        Some((acc, i + 1))
    } else if s[i] == '\\' {
        if i + 1 >= s.len() {
            None
        } else {
            match spec_escape_char(s[i + 1]) {
                Some(c) => spec_string_body(s, i + 2, acc.push(c)),
                None => None,
            }
        }
    } else if (s[i] as u32) < 32 {
        None
    } else {
        spec_string_body(s, i + 1, acc.push(s[i]))
    }
}

/// A string literal at `i`: an opening quote, a body, a closing quote.
pub open spec fn spec_parse_string(s: Seq<char>, i: int) -> Option<(Seq<char>, int)> {
    if 0 <= i < s.len() && s[i] == '"' {
        spec_string_body(s, i + 1, Seq::empty())
    } else {
        None
    }
}

fn parse_string_body(s: &str, n: usize, i: usize, acc: String) -> (r: Option<(String, usize)>)
    requires
        n == s@.len(),
        i <= n,
    ensures
        match r {
            Some((v, j)) => spec_string_body(s@, i as int, acc@) == Some((v@, j as int)) && i < j
                <= n,
            None => spec_string_body(s@, i as int, acc@) is None,
        },
    decreases n - i,
{
    if i >= n {
        return None;
    }
    let c = s.get_char(i);
    if c == '"' {
        return Some((acc, i + 1));
    }
    if c == '\\' {
        if i + 1 >= n {
            return None;
        }
        let e = s.get_char(i + 1);
        let dec: Option<char> = if e == '"' {
            Some('"')
        } else if e == '\\' {
            Some('\\')
        } else if e == '/' {
            Some('/')
        } else if e == 'n' {
            Some('\n')
        } else if e == 't' {
            Some('\t')
        } else if e == 'r' {
            Some('\r')
        } else if e == 'b' {
            Some('\u{0008}')
        } else if e == 'f' {
            Some('\u{000C}')
        } else {
            None
        };
        proof {
            assert(dec == spec_escape_char(s@[i as int + 1]));
        }
        match dec {
            Some(d) => {
                let mut acc2 = acc;
                push_char(&mut acc2, d);
                return parse_string_body(s, n, i + 2, acc2);
            },
            None => {
                return None;
            },
        }
    }
    if (c as u32) < 32 {
        return None;
    }
    let mut acc2 = acc;
    push_char(&mut acc2, c);
    parse_string_body(s, n, i + 1, acc2)
}

fn parse_string(s: &str, n: usize, i: usize) -> (r: Option<(String, usize)>)
    requires
        n == s@.len(),
        i <= n,
    ensures
        match r {
            Some((v, j)) => spec_parse_string(s@, i as int) == Some((v@, j as int)) && i < j <= n,
            None => spec_parse_string(s@, i as int) is None,
        },
{
    if i >= n {
        return None;
    }
    if s.get_char(i) != '"' {
        return None;
    }
    let acc = String::new();
    proof {
        assert(acc@ =~= Seq::<char>::empty());
    }
    parse_string_body(s, n, i + 1, acc)
}

pub open spec fn is_digit(c: char) -> bool {
    '0' <= c && c <= '9'
}

pub open spec fn digit_val(c: char) -> int {
    (c as u32) as int - 48
}

/// Digits from `i` accumulated onto `acc`, refusing values above
/// `i64::MAX`.
pub open spec fn spec_digits(s: Seq<char>, i: int, acc: int) -> Option<(int, int)>
    decreases s.len() - i,
{
    if i < s.len() && is_digit(s[i]) {
        let v = acc * 10 + digit_val(s[i]);
        if v > i64::MAX as int {
            None
        } else {
            spec_digits(s, i + 1, v)
        }
    } else {
        Some((acc, i))
    }
}

/// An integer literal at `i`: an optional minus sign and at least one
/// digit, not followed by a fraction or exponent.
pub open spec fn spec_parse_int(s: Seq<char>, i: int) -> Option<(i64, int)> {
    let neg = i < s.len() && s[i] == '-';
    let j = if neg {
        i + 1
    } else {
        i
    };
    if j < s.len() && is_digit(s[j]) {
        match spec_digits(s, j, 0) {
            Some((v, k)) => {
                if k < s.len() && (s[k] == '.' || s[k] == 'e' || s[k] == 'E') {
                    None
                } else if neg {
                    Some(((-v) as i64, k))
                } else {
                    Some((v as i64, k))
                }
            },
            None => None,
        }
    } else {
        None
    }
}

fn parse_digits(s: &str, n: usize, i: usize, acc: i64) -> (r: Option<(i64, usize)>)
    requires
        n == s@.len(),
        i <= n,
        acc >= 0,
    ensures
        match r {
            Some((v, j)) => spec_digits(s@, i as int, acc as int) == Some((v as int, j as int))
                && i <= j <= n && v >= 0 && (i < n && is_digit(s@[i as int]) ==> j > i),
            None => spec_digits(s@, i as int, acc as int) is None,
        },
    decreases n - i,
{
    if i >= n {
        return Some((acc, i));
    }
    let c = s.get_char(i);
    if !('0' <= c && c <= '9') {
        return Some((acc, i));
    }
    let d: i64 = ((c as u32) - 48) as i64;
    let wide: i128 = (acc as i128) * 10 + (d as i128);
    if wide > i64::MAX as i128 {
        return None;
    }
    parse_digits(s, n, i + 1, wide as i64)
}

fn parse_int(s: &str, n: usize, i: usize) -> (r: Option<(i64, usize)>)
    requires
        n == s@.len(),
        i <= n,
    ensures
        match r {
            Some((v, j)) => spec_parse_int(s@, i as int) == Some((v, j as int)) && i < j <= n,
            None => spec_parse_int(s@, i as int) is None,
        },
{
    if i >= n {
        return None;
    }
    let neg = s.get_char(i) == '-';
    let j = if neg {
        i + 1
    } else {
        i
    };
    if j >= n {
        return None;
    }
    let c = s.get_char(j);
    if !('0' <= c && c <= '9') {
        return None;
    }
    match parse_digits(s, n, j, 0) {
        None => None,
        Some((v, k)) => {
            if k < n {
                let t = s.get_char(k);
                if t == '.' || t == 'e' || t == 'E' {
                    return None;
                }
            }
            if neg {
                Some((-v, k))
            } else {
                Some((v, k))
            }
        },
    }
}

/// `kw` stands verbatim at index `i` of `s`.
pub open spec fn spec_match_at(s: Seq<char>, i: int, kw: Seq<char>) -> bool {
    0 <= i && i + kw.len() <= s.len() && s.subrange(i, i + kw.len() as int) =~= kw
}

fn match_at(s: &str, n: usize, i: usize, kw: &str, m: usize) -> (r: bool)
    requires
        n == s@.len(),
        m == kw@.len(),
        i <= n,
    ensures
        r == spec_match_at(s@, i as int, kw@),
{
    if m > n - i {
        return false;
    }
    let mut j: usize = 0;
    while j < m
        invariant
            n == s@.len(),
            m == kw@.len(),
            i <= n,
            m <= n - i,
            j <= m,
            forall|k: int| 0 <= k < j ==> s@[i + k] == kw@[k],
        decreases m - j,
    {
        if s.get_char(i + j) != kw.get_char(j) {
            proof {
                assert(s@.subrange(i as int, i as int + m as int)[j as int] != kw@[j as int]);
            }
            return false;
        }
        j += 1;
    }
    proof {
        assert(s@.subrange(i as int, i as int + m as int) =~= kw@);
    }
    true
}

/// A scalar value at `i`: a string, an integer, `null`, `true` or `false`.
pub open spec fn spec_parse_scalar(s: Seq<char>, i: int) -> Option<(ScalarData, int)> {
    if i >= s.len() || i < 0 {
        None
    } else if s[i] == '"' {
        match spec_parse_string(s, i) {
            Some((v, j)) => Some((ScalarData::Str(v), j)),
            None => None,
        }
    } else if s[i] == '-' || is_digit(s[i]) {
        match spec_parse_int(s, i) {
            Some((v, j)) => Some((ScalarData::Int(v), j)),
            None => None,
        }
    } else if spec_match_at(s, i, "null"@) {
        Some((ScalarData::Null, i + "null"@.len()))
    } else if spec_match_at(s, i, "true"@) {
        Some((ScalarData::Bool(true), i + "true"@.len()))
    } else if spec_match_at(s, i, "false"@) {
        Some((ScalarData::Bool(false), i + "false"@.len()))
    } else {
        None
    }
}

fn parse_scalar(s: &str, n: usize, i: usize) -> (r: Option<(Scalar, usize)>)
    requires
        n == s@.len(),
        i <= n,
    ensures
        match r {
            Some((v, j)) => spec_parse_scalar(s@, i as int) == Some((v@, j as int)) && i < j <= n,
            None => spec_parse_scalar(s@, i as int) is None,
        },
{
    if i >= n {
        return None;
    }
    proof {
        reveal_strlit("null");
        reveal_strlit("true");
        reveal_strlit("false");
    }
    let c = s.get_char(i);
    if c == '"' {
        match parse_string(s, n, i) {
            Some((v, j)) => Some((Scalar::Str(v), j)),
            None => None,
        }
    } else if c == '-' || ('0' <= c && c <= '9') {
        match parse_int(s, n, i) {
            Some((v, j)) => Some((Scalar::Int(v), j)),
            None => None,
        }
    } else if match_at(s, n, i, "null", 4) {
        Some((Scalar::Null, i + 4))
    } else if match_at(s, n, i, "true", 4) {
        Some((Scalar::Bool(true), i + 4))
    } else if match_at(s, n, i, "false", 5) {
        Some((Scalar::Bool(false), i + 5))
    } else {
        None
    }
}

/// Members of an object from `i` (just past `{` or a `,`) up to and past the
/// closing `}`; `acc` holds the key/value pairs already read. `fuel` only
/// bounds the recursion and never runs out on an accepted input, since each
/// member occupies at least one character.
pub open spec fn spec_members(
    s: Seq<char>,
    i: int,
    acc: Seq<(Seq<char>, ScalarData)>,
    fuel: nat,
) -> Option<(Seq<(Seq<char>, ScalarData)>, int)>
    decreases fuel,
{
    if fuel == 0 {
        None
    } else {
        let i1 = spec_skip_ws(s, i);
        match spec_parse_string(s, i1) {
            None => None,
            Some((key, i2)) => {
                let i3 = spec_skip_ws(s, i2);
                if i3 < s.len() && s[i3] == ':' {
                    let i4 = spec_skip_ws(s, i3 + 1);
                    match spec_parse_scalar(s, i4) {
                        None => None,
                        Some((v, i5)) => {
                            let i6 = spec_skip_ws(s, i5);
                            let acc2 = acc.push((key, v));
                            if i6 < s.len() && s[i6] == ',' {
                                spec_members(s, i6 + 1, acc2, (fuel - 1) as nat)
                            } else if i6 < s.len() && s[i6] == '}' {
                                Some((acc2, i6 + 1))
                            } else {
                                None
                            }
                        },
                    }
                } else {
                    None
                }
            },
        }
    }
}

/// An object at `i`: `{`, members or nothing, `}`. Values must be scalars;
/// nested structure is not accepted.
pub open spec fn spec_parse_object(s: Seq<char>, i: int) -> Option<
    (Seq<(Seq<char>, ScalarData)>, int),
> {
    if 0 <= i < s.len() && s[i] == '{' {
        let i1 = spec_skip_ws(s, i + 1);
        if i1 < s.len() && s[i1] == '}' {
            Some((Seq::empty(), i1 + 1))
        } else {
            spec_members(s, i + 1, Seq::empty(), s.len())
        }
    } else {
        None
    }
}

fn parse_members(s: &str, n: usize, i: usize, acc: Vec<(String, Scalar)>, fuel: usize) -> (r:
    Option<(Vec<(String, Scalar)>, usize)>)
    requires
        n == s@.len(),
        i <= n,
    ensures
        match r {
            Some((v, j)) => spec_members(s@, i as int, acc.deep_view(), fuel as nat) == Some(
                (v.deep_view(), j as int),
            ) && j <= n,
            None => spec_members(s@, i as int, acc.deep_view(), fuel as nat) is None,
        },
    decreases fuel,
{
    if fuel == 0 {
        return None;
    }
    let i1 = skip_ws(s, n, i);
    match parse_string(s, n, i1) {
        None => None,
        Some((key, i2)) => {
            let i3 = skip_ws(s, n, i2);
            if i3 < n && s.get_char(i3) == ':' {
                let i4 = skip_ws(s, n, i3 + 1);
                match parse_scalar(s, n, i4) {
                    None => None,
                    Some((v, i5)) => {
                        let i6 = skip_ws(s, n, i5);
                        let mut acc2 = acc;
                        let ghost old_acc = acc2.deep_view();
                        acc2.push((key, v));
                        proof {
                            assert(acc2.deep_view() =~= old_acc.push((key@, v@)));
                        }
                        if i6 < n && s.get_char(i6) == ',' {
                            parse_members(s, n, i6 + 1, acc2, fuel - 1)
                        } else if i6 < n && s.get_char(i6) == '}' {
                            Some((acc2, i6 + 1))
                        } else {
                            None
                        }
                    },
                }
            } else {
                None
            }
        },
    }
}

fn parse_object(s: &str, n: usize, i: usize) -> (r: Option<(Vec<(String, Scalar)>, usize)>)
    requires
        n == s@.len(),
        i <= n,
    ensures
        match r {
            Some((v, j)) => spec_parse_object(s@, i as int) == Some((v.deep_view(), j as int))
                && j <= n,
            None => spec_parse_object(s@, i as int) is None,
        },
{
    if i >= n {
        return None;
    }
    if s.get_char(i) != '{' {
        return None;
    }
    let i1 = skip_ws(s, n, i + 1);
    if i1 < n && s.get_char(i1) == '}' {
        let empty: Vec<(String, Scalar)> = Vec::new();
        proof {
            assert(empty.deep_view() =~= Seq::<(Seq<char>, ScalarData)>::empty());
        }
        return Some((empty, i1 + 1));
    }
    let empty: Vec<(String, Scalar)> = Vec::new();
    proof {
        assert(empty.deep_view() =~= Seq::<(Seq<char>, ScalarData)>::empty());
    }
    parse_members(s, n, i + 1, empty, n)
}

/// Objects of an array from `i` (just past `[` or a `,`) up to and past the
/// closing `]`; `acc` holds the objects already read.
pub open spec fn spec_array_items(
    s: Seq<char>,
    i: int,
    acc: Seq<Seq<(Seq<char>, ScalarData)>>,
    fuel: nat,
) -> Option<(Seq<Seq<(Seq<char>, ScalarData)>>, int)>
    decreases fuel,
{
    if fuel == 0 {
        None
    } else {
        let i1 = spec_skip_ws(s, i);
        match spec_parse_object(s, i1) {
            None => None,
            Some((obj, i2)) => {
                let i3 = spec_skip_ws(s, i2);
                let acc2 = acc.push(obj);
                if i3 < s.len() && s[i3] == ',' {
                    spec_array_items(s, i3 + 1, acc2, (fuel - 1) as nat)
                } else if i3 < s.len() && s[i3] == ']' {
                    Some((acc2, i3 + 1))
                } else {
                    None
                }
            },
        }
    }
}

/// An array of objects at `i`: `[`, objects or nothing, `]`.
pub open spec fn spec_parse_array(s: Seq<char>, i: int) -> Option<
    (Seq<Seq<(Seq<char>, ScalarData)>>, int),
> {
    if 0 <= i < s.len() && s[i] == '[' {
        let i1 = spec_skip_ws(s, i + 1);
        if i1 < s.len() && s[i1] == ']' {
            Some((Seq::empty(), i1 + 1))
        } else {
            spec_array_items(s, i + 1, Seq::empty(), s.len())
        }
    } else {
        None
    }
}

fn parse_array_items(
    s: &str,
    n: usize,
    i: usize,
    acc: Vec<Vec<(String, Scalar)>>,
    fuel: usize,
) -> (r: Option<(Vec<Vec<(String, Scalar)>>, usize)>)
    requires
        n == s@.len(),
        i <= n,
    ensures
        match r {
            Some((v, j)) => spec_array_items(s@, i as int, acc.deep_view(), fuel as nat) == Some(
                (v.deep_view(), j as int),
            ) && j <= n,
            None => spec_array_items(s@, i as int, acc.deep_view(), fuel as nat) is None,
        },
    decreases fuel,
{
    if fuel == 0 {
        return None;
    }
    let i1 = skip_ws(s, n, i);
    match parse_object(s, n, i1) {
        None => None,
        Some((obj, i2)) => {
            let i3 = skip_ws(s, n, i2);
            let mut acc2 = acc;
            let ghost old_acc = acc2.deep_view();
            acc2.push(obj);
            proof {
                assert(acc2.deep_view() =~= old_acc.push(obj.deep_view()));
            }
            if i3 < n && s.get_char(i3) == ',' {
                parse_array_items(s, n, i3 + 1, acc2, fuel - 1)
            } else if i3 < n && s.get_char(i3) == ']' {
                Some((acc2, i3 + 1))
            } else {
                None
            }
        },
    }
}

pub fn parse_array(s: &str, n: usize, i: usize) -> (r: Option<(Vec<Vec<(String, Scalar)>>, usize)>)
    requires
        n == s@.len(),
        i <= n,
    ensures
        match r {
            Some((v, j)) => spec_parse_array(s@, i as int) == Some((v.deep_view(), j as int)) && j
                <= n,
            None => spec_parse_array(s@, i as int) is None,
        },
{
    if i >= n {
        return None;
    }
    if s.get_char(i) != '[' {
        return None;
    }
    let i1 = skip_ws(s, n, i + 1);
    if i1 < n && s.get_char(i1) == ']' {
        let empty: Vec<Vec<(String, Scalar)>> = Vec::new();
        proof {
            assert(empty.deep_view() =~= Seq::<Seq<(Seq<char>, ScalarData)>>::empty());
        }
        return Some((empty, i1 + 1));
    }
    let empty: Vec<Vec<(String, Scalar)>> = Vec::new();
    proof {
        assert(empty.deep_view() =~= Seq::<Seq<(Seq<char>, ScalarData)>>::empty());
    }
    parse_array_items(s, n, i + 1, empty, n)
}

/// Character-wise string comparison.
pub fn str_eq(a: &str, b: &str) -> (r: bool)
    ensures
        r == (a@ == b@),
{
    let na = a.unicode_len();
    let nb = b.unicode_len();
    if na != nb {
        proof {
            assert(a@ != b@);
        }
        return false;
    }
    let mut j: usize = 0;
    while j < na
        invariant
            na == a@.len(),
            na == b@.len(),
            j <= na,
            forall|k: int| 0 <= k < j ==> a@[k] == b@[k],
        decreases na - j,
    {
        if a.get_char(j) != b.get_char(j) {
            proof {
                assert(a@[j as int] != b@[j as int]);
            }
            return false;
        }
        j += 1;
    }
    proof {
        assert(a@ =~= b@);
    }
    true
}

/// The value under `key`, if any: the first member whose key matches.
pub open spec fn spec_obj_lookup(obj: Seq<(Seq<char>, ScalarData)>, key: Seq<char>) -> Option<
    ScalarData,
>
    decreases obj.len(),
{
    if obj.len() == 0 {
        None
    } else if obj[0].0 == key {
        Some(obj[0].1)
    } else {
        spec_obj_lookup(obj.drop_first(), key)
    }
}

pub fn obj_lookup<'a>(obj: &'a Vec<(String, Scalar)>, key: &str) -> (r: Option<&'a Scalar>)
    ensures
        match r {
            Some(v) => spec_obj_lookup(obj.deep_view(), key@) == Some(v@),
            None => spec_obj_lookup(obj.deep_view(), key@) is None,
        },
{
    let ghost model = obj.deep_view();
    let mut i: usize = 0;
    proof {
        assert(model.skip(0) =~= model);
    }
    while i < obj.len()
        invariant
            model == obj.deep_view(),
            i <= obj.len(),
            spec_obj_lookup(model, key@) == spec_obj_lookup(model.skip(i as int), key@),
        decreases obj.len() - i,
    {
        proof {
            let k = i as int;
            assert(model.skip(k)[0] == (obj@[k].0@, obj@[k].1.deep_view()));
            assert(model.skip(k).drop_first() =~= model.skip(k + 1));
        }
        if str_eq(obj[i].0.as_str(), key) {
            return Some(&obj[i].1);
        }
        i += 1;
    }
    proof {
        assert(model.skip(i as int).len() == 0);
    }
    None
}

/// The session-creation response: exactly one JSON string, surrounded only
/// by whitespace. The result is the decoded token.
pub open spec fn spec_decode_token(s: Seq<char>) -> Option<Seq<char>> {
    let i0 = spec_skip_ws(s, 0);
    match spec_parse_string(s, i0) {
        None => None,
        Some((tok, j)) => if spec_skip_ws(s, j) == s.len() {
            Some(tok)
        } else {
            None
        },
    }
}

/// Decode a session-creation response body: the bare JSON string token.
pub fn decode_token(s: &str) -> (r: Option<String>)
    ensures
        match r {
            Some(tok) => spec_decode_token(s@) == Some(tok@),
            None => spec_decode_token(s@) is None,
        },
{
    let n = s.unicode_len();
    let i0 = skip_ws(s, n, 0);
    match parse_string(s, n, i0) {
        None => None,
        Some((tok, j)) => {
            let j2 = skip_ws(s, n, j);
            if j2 == n {
                Some(tok)
            } else {
                None
            }
        },
    }
}

} // verus!
