use vstd::prelude::*;

verus! {

/// Relies on `str::chars` collected into a `Vec`: the characters of `s`, in order.
#[verifier::external_body]
pub(crate) fn chars_of(s: &str) -> (r: Vec<char>)
    ensures
        r@ == s@,
{
    s.chars().collect()
}

/// Relies on `String: FromIterator<&char>`: the string made of `cs`, in order.
#[verifier::external_body]
pub(crate) fn string_of(cs: &[char]) -> (r: String)
    ensures
        r@ == cs@,
{
    cs.iter().collect()
}

/// The string made of `cs[lo..hi)`.
pub(crate) fn string_of_range(cs: &Vec<char>, lo: usize, hi: usize) -> (r: String)
    requires
        lo <= hi <= cs@.len(),
    ensures
        r@ == cs@.subrange(lo as int, hi as int),
{
    let part = vstd::slice::slice_subrange(cs.as_slice(), lo, hi);
    string_of(part)
}

/// Joins two strings.
pub(crate) fn join(a: &str, b: &str) -> (r: String)
    ensures
        r@ == a@ + b@,
{
    let s = String::from_str(a);
    s.concat(b)
}

pub open spec fn is_digit(c: char) -> bool {
    '0' <= c && c <= '9'
}

pub open spec fn all_digits(s: Seq<char>) -> bool {
    forall|i: int| 0 <= i < s.len() ==> is_digit(#[trigger] s[i])
}

/// The value of a run of decimal digits, most significant first.
pub open spec fn digits_value(s: Seq<char>) -> int
    decreases s.len(),
{
    if s.len() == 0 {
        0
    } else {
        digits_value(s.drop_last()) * 10 + (s.last() as int - '0' as int)
    }
}

/// The digits of an unsigned number: the text without one leading `+`.
pub open spec fn unsigned_part(s: Seq<char>) -> Seq<char> {
    if s.len() > 0 && s[0] == '+' {
        s.drop_first()
    } else {
        s
    }
}

/// Why a text is not a `usize` in decimal.
#[derive(Debug, Clone, Copy, PartialEq, Eq, Structural)]
pub enum ParseIntError {
    Empty,
    InvalidDigit,
    PosOverflow,
}

impl ParseIntError {
    /// The sentence that describes the failure.
    pub fn message(&self) -> (r: &'static str)
        ensures
            *self is Empty ==> r@ == "cannot parse integer from empty string"@,
            *self is InvalidDigit ==> r@ == "invalid digit found in string"@,
            *self is PosOverflow ==> r@ == "number too large to fit in target type"@,
    {
        match self {
            ParseIntError::Empty => "cannot parse integer from empty string",
            ParseIntError::InvalidDigit => "invalid digit found in string",
            ParseIntError::PosOverflow => "number too large to fit in target type",
        }
    }
}

/// The meaning of a decimal `usize` text: an optional `+` and at least one digit.
pub open spec fn parse_usize_spec(s: Seq<char>) -> Result<usize, ParseIntError> {
    let d = unsigned_part(s);
    if s.len() == 0 {
        Err(ParseIntError::Empty)
    } else if d.len() == 0 || !all_digits(d) {
        Err(ParseIntError::InvalidDigit)
    } else if digits_value(d) > usize::MAX {
        Err(ParseIntError::PosOverflow)
    } else {
        Ok(digits_value(d) as usize)
    }
}

proof fn lemma_digits_value_nonneg(s: Seq<char>)
    requires
        all_digits(s),
    ensures
        digits_value(s) >= 0,
    decreases s.len(),
{
    if s.len() > 0 {
        assert(is_digit(s[s.len() - 1]));
        lemma_digits_value_nonneg(s.drop_last());
    }
}

proof fn lemma_digits_value_prefix(s: Seq<char>, i: int)
    requires
        all_digits(s),
        0 <= i <= s.len(),
    ensures
        digits_value(s.subrange(0, i)) <= digits_value(s),
    decreases s.len() - i,
{
    if i < s.len() {
        let p = s.subrange(0, i + 1);
        assert(p.drop_last() =~= s.subrange(0, i));
        assert(is_digit(p.last()));
        lemma_digits_value_nonneg(s.subrange(0, i));
        lemma_digits_value_prefix(s, i + 1);
    } else {
        assert(s.subrange(0, i) =~= s);
    }
}

/// Reads a `usize` written in decimal, with an optional leading `+`.
pub fn parse_usize(s: &[char]) -> (r: Result<usize, ParseIntError>)
    ensures
        r == parse_usize_spec(s@),
{
    let n = s.len();
    if n == 0 {
        return Err(ParseIntError::Empty);
    }
    let mut start: usize = 0;
    if s[0] == '+' {
        start = 1;
    }
    let ghost d = unsigned_part(s@);
    assert(d =~= s@.subrange(start as int, n as int));
    if start == n {
        return Err(ParseIntError::InvalidDigit);
    }
    let mut i: usize = start;
    while i < n
        invariant
            start <= i <= n,
            n == s@.len(),
            d == s@.subrange(start as int, n as int),
            d == unsigned_part(s@),
            forall|k: int| 0 <= k < i - start ==> is_digit(#[trigger] d[k]),
        decreases n - i,
    {
        if !('0' <= s[i] && s[i] <= '9') {
            assert(d[i - start] == s@[i as int]);
            assert(!is_digit(d[i - start]));
            assert(!all_digits(d));
            return Err(ParseIntError::InvalidDigit);
        }
        i = i + 1;
    }
    assert(all_digits(d));
    let mut value: usize = 0;
    let mut i: usize = start;
    while i < n
        invariant
            start <= i <= n,
            n == s@.len(),
            d == s@.subrange(start as int, n as int),
            d == unsigned_part(s@),
            all_digits(d),
            value == digits_value(d.subrange(0, i - start)),
        decreases n - i,
    {
        let ghost p = d.subrange(0, i - start + 1);
        assert(p.drop_last() =~= d.subrange(0, i - start));
        assert(p.last() == s@[i as int]);
        assert(d[i - start] == s@[i as int]);
        assert(is_digit(d[i - start]));
        let digit = (s[i] as u32 - '0' as u32) as usize;
        assert(digits_value(p) == value * 10 + digit);
        if value > (usize::MAX - digit) / 10 {
            assert(digits_value(p) > usize::MAX) by (nonlinear_arith)
                requires
                    value > (usize::MAX - digit) / 10,
                    digits_value(p) == value * 10 + digit,
                    digit <= 9,
            ;
            proof {
                lemma_digits_value_prefix(d, i - start + 1);
            }
            return Err(ParseIntError::PosOverflow);
        }
        assert(value * 10 + digit <= usize::MAX) by (nonlinear_arith)
            requires
                value <= (usize::MAX - digit) / 10,
                digit <= 9,
        ;
        value = value * 10 + digit;
        i = i + 1;
    }
    assert(d.subrange(0, n - start) =~= d);
    Ok(value)
}

/// The decimal digits of `n`, most significant first, without leading zeros.
pub open spec fn unsigned_decimal(n: nat) -> Seq<char>
    decreases n,
{
    if n < 10 {
        seq![((n + 48) as u32) as char]
    } else {
        unsigned_decimal(n / 10).push((((n % 10) + 48) as u32) as char)
    }
}

/// The decimal text of `n`, with a `-` before a negative value.
pub open spec fn decimal(n: int) -> Seq<char> {
    if n < 0 {
        seq!['-'] + unsigned_decimal((-n) as nat)
    } else {
        unsigned_decimal(n as nat)
    }
}

/// Writes `n` in decimal.
pub fn decimal_string(n: i64) -> (r: String)
    ensures
        r@ == decimal(n as int),
{
    let mag: u64 = if n < 0 {
        ((-(n + 1)) as u64) + 1
    } else {
        n as u64
    };
    let mut q: u64 = mag;
    let mut acc: Vec<char> = Vec::new();
    while q >= 10
        invariant
            unsigned_decimal(mag as nat) == unsigned_decimal(q as nat) + acc@,
        decreases q,
    {
        let c = ((q % 10) as u8 + 48) as char;
        let ghost old_acc = acc@;
        acc.insert(0, c);
        assert(unsigned_decimal(q as nat) == unsigned_decimal((q / 10) as nat).push(c));
        assert(unsigned_decimal(q as nat) + old_acc =~= unsigned_decimal((q / 10) as nat) + acc@);
        q = q / 10;
    }
    let c = (q as u8 + 48) as char;
    acc.insert(0, c);
    if n < 0 {
        acc.insert(0, '-');
    }
    let r = string_of(acc.as_slice());
    assert(r@ =~= decimal(n as int));
    r
}

/// The index of the first `c` in `s`, or its length.
pub open spec fn index_of(s: Seq<char>, c: char) -> int
    decreases s.len(),
{
    if s.len() == 0 {
        0
    } else if s[0] == c {
        0
    } else {
        1 + index_of(s.drop_first(), c)
    }
}

/// `index_of` finds the first `c`, if any.
pub proof fn lemma_index_of(s: Seq<char>, c: char)
    ensures
        0 <= index_of(s, c) <= s.len(),
        index_of(s, c) < s.len() ==> s[index_of(s, c)] == c,
        forall|k: int| 0 <= k < index_of(s, c) ==> s[k] != c,
    decreases s.len(),
{
    if s.len() > 0 && s[0] != c {
        lemma_index_of(s.drop_first(), c);
        assert forall|k: int| 0 <= k < index_of(s, c) implies s[k] != c by {
            if k > 0 {
                assert(s[k] == s.drop_first()[k - 1]);
            }
        }
    }
}

/// The index of the first `c` in `cs`, or its length.
pub fn find_char(cs: &[char], c: char) -> (r: usize)
    ensures
        r == index_of(cs@, c),
{
    proof {
        lemma_index_of(cs@, c);
    }
    let mut i: usize = 0;
    while i < cs.len()
        invariant
            i <= cs@.len(),
            i <= index_of(cs@, c) <= cs@.len(),
            index_of(cs@, c) < cs@.len() ==> cs@[index_of(cs@, c)] == c,
            forall|k: int| 0 <= k < index_of(cs@, c) ==> cs@[k] != c,
        decreases cs@.len() - i,
    {
        if cs[i] == c {
            return i;
        }
        i = i + 1;
    }
    i
}

/// The pieces of `s` between the separators `sep`, as `str::split` gives them.
pub open spec fn split_on(s: Seq<char>, sep: char) -> Seq<Seq<char>>
    decreases s.len(),
{
    let i = index_of(s, sep);
    proof {
        lemma_index_of(s, sep);
    }
    if i >= s.len() {
        seq![s]
    } else {
        seq![s.subrange(0, i)] + split_on(s.subrange(i + 1, s.len() as int), sep)
    }
}

/// Splits `cs` at each `sep`.
pub fn split_chars(cs: &[char], sep: char) -> (r: Vec<String>)
    ensures
        r@.len() == split_on(cs@, sep).len(),
        forall|i: int| 0 <= i < r@.len() ==> (#[trigger] r@[i])@ == split_on(cs@, sep)[i],
{
    let n = cs.len();
    let mut out: Vec<String> = Vec::new();
    let mut pos: usize = 0;
    assert(cs@.subrange(0, n as int) =~= cs@);
    assert(out@.map_values(|s: String| s@) + split_on(cs@, sep) =~= split_on(cs@, sep));
    loop
        invariant
            pos <= n,
            n == cs@.len(),
            split_on(cs@, sep) == out@.map_values(|s: String| s@) + split_on(cs@.subrange(pos as int, n as int), sep),
        decreases n - pos,
    {
        let rest = vstd::slice::slice_subrange(cs, pos, n);
        let i = find_char(rest, sep);
        proof {
            lemma_index_of(rest@, sep);
        }
        let ghost before = out@.map_values(|s: String| s@);
        let piece = vstd::slice::slice_subrange(rest, 0, i);
        out.push(string_of(piece));
        assert(out@.map_values(|s: String| s@) =~= before.push(piece@));
        if i == rest.len() {
            assert(rest@.subrange(0, i as int) =~= rest@);
            assert(before.push(piece@) =~= before + split_on(rest@, sep));
            return out;
        }
        assert(rest@.subrange(i + 1, rest@.len() as int) =~= cs@.subrange(pos + i + 1, n as int));
        assert(before.push(piece@) + split_on(cs@.subrange(pos + i + 1, n as int), sep) =~= before + split_on(
            rest@,
            sep,
        ));
        pos = pos + i + 1;
    }
}

} // verus!
