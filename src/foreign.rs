use vstd::prelude::*;
use vstd::arithmetic::div_mod::lemma_fundamental_div_mod;

verus! {

pub open spec fn is_high_surrogate(u: u16) -> bool {
    0xD800 <= u && u < 0xDC00
}

pub open spec fn is_low_surrogate(u: u16) -> bool {
    0xDC00 <= u && u < 0xE000
}

/// The UTF-16 code units of one character.
pub open spec fn utf16_of_char(c: char) -> Seq<u16> {
    let v = c as u32;
    if v < 0x10000 {
        seq![v as u16]
    } else {
        seq![
            (0xD800 + (v - 0x10000) / 0x400) as u16,
            (0xDC00 + (v - 0x10000) % 0x400) as u16,
        ]
    }
}

/// The UTF-16 code units of a text.
pub open spec fn utf16_encode(s: Seq<char>) -> Seq<u16>
    decreases s.len(),
{
    if s.len() == 0 {
        Seq::empty()
    } else {
        utf16_of_char(s[0]) + utf16_encode(s.drop_first())
    }
}

/// The text that the code units `u` encode in UTF-16; `None` where a surrogate
/// stands without its partner.
pub open spec fn utf16_decode(u: Seq<u16>) -> Option<Seq<char>>
    decreases u.len(),
{
    if u.len() == 0 {
        Some(Seq::empty())
    } else if u.len() >= 2 && is_high_surrogate(u[0]) && is_low_surrogate(u[1]) {
        match utf16_decode(u.subrange(2, u.len() as int)) {
            Some(rest) => Some(
                seq![((0x10000 + (u[0] - 0xD800) * 0x400 + (u[1] - 0xDC00)) as u32) as char]
                    + rest,
            ),
            None => None,
        }
    } else if is_high_surrogate(u[0]) || is_low_surrogate(u[0]) {
        None
    } else {
        match utf16_decode(u.drop_first()) {
            Some(rest) => Some(seq![(u[0] as u32) as char] + rest),
            None => None,
        }
    }
}

/// What a failed decoding of UTF-16 text reports.
pub const UTF16_ERROR: &'static str = "invalid utf-16: lone surrogate found";

/// Relies on `String::from_utf16`: it fails exactly on a lone surrogate and
/// otherwise returns the text the units encode.
#[verifier::external_body]
fn from_utf16(units: &[u16]) -> (r: Option<String>)
    ensures
        r is Some <==> utf16_decode(units@) is Some,
        r matches Some(s) ==> Some(s@) == utf16_decode(units@),
{
    String::from_utf16(units).ok()
}

/// The total of the lengths.
pub open spec fn total_length(lengths: Seq<u16>) -> int
    decreases lengths.len(),
{
    if lengths.len() == 0 {
        0
    } else {
        total_length(lengths.drop_last()) + lengths.last() as int
    }
}

/// Where run `i` starts: the runs stand one after another.
pub open spec fn run_start(lengths: Seq<u16>, i: int) -> int {
    total_length(lengths.subrange(0, i))
}

/// Run `i` of `units`, cut by `lengths`.
pub open spec fn run(units: Seq<u16>, lengths: Seq<u16>, i: int) -> Seq<u16> {
    units.subrange(run_start(lengths, i), run_start(lengths, i) + lengths[i] as int)
}

/// Every run decodes.
pub open spec fn runs_decode(units: Seq<u16>, lengths: Seq<u16>) -> bool {
    forall|i: int| 0 <= i < lengths.len() ==> (#[trigger] utf16_decode(run(units, lengths, i))) is Some
}

proof fn lemma_total_length_step(lengths: Seq<u16>, i: int)
    requires
        0 <= i < lengths.len(),
    ensures
        run_start(lengths, i + 1) == run_start(lengths, i) + lengths[i] as int,
{
    assert(lengths.subrange(0, i + 1).drop_last() =~= lengths.subrange(0, i));
}

proof fn lemma_total_length_mono(lengths: Seq<u16>, i: int)
    requires
        0 <= i <= lengths.len(),
    ensures
        0 <= run_start(lengths, i) <= total_length(lengths),
    decreases lengths.len() - i,
{
    if i < lengths.len() {
        lemma_total_length_step(lengths, i);
        lemma_total_length_mono(lengths, i + 1);
        lemma_total_length_nonneg(lengths.subrange(0, i));
        if i == 0 {
            assert(lengths.subrange(0, 0) =~= Seq::<u16>::empty());
        }
    } else {
        assert(lengths.subrange(0, i) =~= lengths);
        lemma_total_length_nonneg(lengths);
    }
}

proof fn lemma_total_length_nonneg(lengths: Seq<u16>)
    ensures
        total_length(lengths) >= 0,
    decreases lengths.len(),
{
    if lengths.len() > 0 {
        lemma_total_length_nonneg(lengths.drop_last());
    }
}

/// Cuts `units` into consecutive runs of the given lengths and decodes each as
/// UTF-16 text.
pub fn decode_runs(units: &[u16], lengths: &[u16]) -> (r: Result<Vec<String>, String>)
    requires
        total_length(lengths@) <= units@.len(),
    ensures
        r is Ok <==> runs_decode(units@, lengths@),
        r matches Ok(v) ==> v@.len() == lengths@.len() && forall|i: int|
            0 <= i < lengths@.len() ==> Some((#[trigger] v@[i])@) == utf16_decode(run(units@, lengths@, i)),
        r matches Err(m) ==> m@ == UTF16_ERROR@,
{
    let mut out: Vec<String> = Vec::new();
    let mut start: usize = 0;
    let mut i: usize = 0;
    let n = lengths.len();
    let m = units.len();
    while i < n
        invariant
            i <= n,
            m == units@.len(),
            n == lengths@.len(),
            total_length(lengths@) <= units@.len(),
            start == run_start(lengths@, i as int),
            out@.len() == i,
            forall|k: int| 0 <= k < i ==> Some((#[trigger] out@[k])@) == utf16_decode(run(units@, lengths@, k)),
        decreases n - i,
    {
        proof {
            lemma_total_length_step(lengths@, i as int);
            lemma_total_length_mono(lengths@, i as int + 1);
        }
        let end = start + lengths[i] as usize;
        let piece = vstd::slice::slice_subrange(units, start, end);
        match from_utf16(piece) {
            Some(s) => {
                out.push(s);
            },
            None => {
                assert(utf16_decode(run(units@, lengths@, i as int)) is None);
                return Err(String::from_str(UTF16_ERROR));
            },
        }
        start = end;
        i = i + 1;
    }
    assert forall|k: int| 0 <= k < lengths@.len() implies (#[trigger] utf16_decode(
        run(units@, lengths@, k),
    )) is Some by {
        assert(Some(out@[k]@) == utf16_decode(run(units@, lengths@, k)));
    }
    Ok(out)
}

/// Decodes one run of UTF-16 text.
pub fn decode_string(units: &[u16]) -> (r: Result<String, String>)
    ensures
        r is Ok <==> utf16_decode(units@) is Some,
        r matches Ok(s) ==> Some(s@) == utf16_decode(units@),
        r matches Err(m) ==> m@ == UTF16_ERROR@,
{
    match from_utf16(units) {
        Some(s) => Ok(s),
        None => Err(String::from_str(UTF16_ERROR)),
    }
}

proof fn lemma_decode_char(c: char, rest: Seq<u16>)
    ensures
        utf16_decode(utf16_of_char(c) + rest) == match utf16_decode(rest) {
            Some(t) => Some(seq![c] + t),
            None => None::<Seq<char>>,
        },
{
    broadcast use vstd::utf8::char_is_scalar, vstd::utf8::char_u32_cast;

    let v = c as u32;
    let u = utf16_of_char(c) + rest;
    assert(vstd::utf8::is_scalar(v));
    if v < 0x10000 {
        assert(u.drop_first() =~= rest);
        assert(((u[0] as u32) as char) == c);
    } else {
        let hi = (v - 0x10000) / 0x400;
        let lo = (v - 0x10000) % 0x400;
        lemma_fundamental_div_mod((v - 0x10000) as int, 0x400);
        assert(0 <= lo < 0x400);
        assert(hi < 0x400);
        assert(u.subrange(2, u.len() as int) =~= rest);
        assert(0x10000 + (u[0] - 0xD800) * 0x400 + (u[1] - 0xDC00) == v);
    }
}

/// Decoding the UTF-16 encoding of a text gives the text back.
pub proof fn lemma_utf16_round_trip(s: Seq<char>)
    ensures
        utf16_decode(utf16_encode(s)) == Some(s),
    decreases s.len(),
{
    if s.len() > 0 {
        lemma_utf16_round_trip(s.drop_first());
        lemma_decode_char(s[0], utf16_encode(s.drop_first()));
        assert(seq![s[0]] + s.drop_first() =~= s);
    }
}

/// The UTF-16 encodings of `names`, one after another.
pub open spec fn encode_all(names: Seq<Seq<char>>) -> Seq<u16>
    decreases names.len(),
{
    if names.len() == 0 {
        Seq::empty()
    } else {
        encode_all(names.drop_last()) + utf16_encode(names.last())
    }
}

/// The length of each name's UTF-16 encoding, in code units.
pub open spec fn encoded_lengths(names: Seq<Seq<char>>) -> Seq<u16> {
    Seq::new(names.len(), |i: int| utf16_encode(names[i]).len() as u16)
}

/// Names written as UTF-16 runs one after another, with their lengths in code
/// units, are cut and decoded back into the same names.
pub proof fn lemma_runs_round_trip(names: Seq<Seq<char>>)
    requires
        forall|i: int| 0 <= i < names.len() ==> (#[trigger] utf16_encode(names[i])).len() <= u16::MAX,
    ensures
        total_length(encoded_lengths(names)) == encode_all(names).len(),
        runs_decode(encode_all(names), encoded_lengths(names)),
        forall|i: int|
            0 <= i < names.len() ==> #[trigger] utf16_decode(run(encode_all(names), encoded_lengths(names), i))
                == Some(names[i]),
    decreases names.len(),
{
    let lens = encoded_lengths(names);
    let units = encode_all(names);
    if names.len() > 0 {
        let prev = names.drop_last();
        let k = names.len() - 1;
        assert forall|i: int| 0 <= i < prev.len() implies (#[trigger] utf16_encode(prev[i])).len() <= u16::MAX by {
            assert(prev[i] == names[i]);
        }
        lemma_runs_round_trip(prev);
        let plens = encoded_lengths(prev);
        assert(lens.drop_last() =~= plens);
        assert(utf16_encode(names[k]).len() <= u16::MAX);
        assert(lens.subrange(0, k) =~= plens);
        assert forall|i: int| 0 <= i < names.len() implies #[trigger] utf16_decode(run(units, lens, i))
            == Some(names[i]) by {
            if i < k {
                assert(lens.subrange(0, i) =~= plens.subrange(0, i));
                lemma_total_length_step(plens, i);
                lemma_total_length_mono(plens, i + 1);
                lemma_total_length_mono(plens, i);
                assert(run(units, lens, i) =~= run(encode_all(prev), plens, i));
            } else {
                assert(run(units, lens, i) =~= utf16_encode(names[k]));
                lemma_utf16_round_trip(names[k]);
            }
        }
    }
}

} // verus!
