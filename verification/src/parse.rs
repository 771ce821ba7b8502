//! Byte-level text parsing: decimal numbers, dotted-quad IPv4
//! addresses, and splitting/trimming of delimited header or
//! configuration values.

use vstd::prelude::*;

verus! {

pub const DOT: u8 = 46;

pub const COMMA: u8 = 44;

pub const SPACE: u8 = 32;

pub const TAB: u8 = 9;

pub const ZERO_DIGIT: u8 = 48;

pub open spec fn is_digit(b: u8) -> bool {
    48 <= b <= 57
}

pub open spec fn all_digits(s: Seq<u8>) -> bool {
    forall|i: int| 0 <= i < s.len() ==> is_digit(#[trigger] s[i])
}

/// The value of a digit string read in base 10.
pub open spec fn dec_value(s: Seq<u8>) -> int
    decreases s.len(),
{
    if s.len() == 0 {
        0
    } else {
        dec_value(s.drop_last()) * 10 + (s.last() - 48)
    }
}

/// One octet of a dotted-quad address: one to three digits, no leading
/// zero, value at most 255.
pub open spec fn valid_octet_text(s: Seq<u8>) -> bool {
    &&& 1 <= s.len() <= 3
    &&& all_digits(s)
    &&& (s.len() > 1 ==> s[0] != ZERO_DIGIT)
    &&& dec_value(s) <= 255
}

pub open spec fn is_space(b: u8) -> bool {
    b == SPACE || b == TAB
}

pub open spec fn trim_start_spec(s: Seq<u8>) -> Seq<u8>
    decreases s.len(),
{
    if s.len() > 0 && is_space(s[0]) {
        trim_start_spec(s.drop_first())
    } else {
        s
    }
}

pub open spec fn trim_end_spec(s: Seq<u8>) -> Seq<u8>
    decreases s.len(),
{
    if s.len() > 0 && is_space(s.last()) {
        trim_end_spec(s.drop_last())
    } else {
        s
    }
}

/// `s` without leading and trailing blanks (spaces and tabs).
pub open spec fn trim_spec(s: Seq<u8>) -> Seq<u8> {
    trim_end_spec(trim_start_spec(s))
}

/// Length of the prefix of `s` before its first `sep` (all of `s` when
/// no `sep` occurs).
pub open spec fn first_part_len(s: Seq<u8>, sep: u8) -> nat
    decreases s.len(),
{
    if s.len() == 0 {
        0
    } else if s[0] == sep {
        0
    } else {
        (1 + first_part_len(s.drop_first(), sep)) as nat
    }
}

/// `s` split at every occurrence of `sep`; always at least one part.
pub open spec fn split_bytes(s: Seq<u8>, sep: u8) -> Seq<Seq<u8>>
    decreases s.len(),
{
    let k = first_part_len(s, sep);
    if k >= s.len() {
        seq![s]
    } else {
        seq![s.take(k as int)] + split_bytes(s.skip(k as int + 1), sep)
    }
}

pub open spec fn views_of_parts(parts: Seq<Vec<u8>>) -> Seq<Seq<u8>> {
    parts.map_values(|p: Vec<u8>| p@)
}

pub open spec fn trimmed_split(s: Seq<u8>, sep: u8) -> Seq<Seq<u8>> {
    split_bytes(s, sep).map_values(|p: Seq<u8>| trim_spec(p))
}

/// A digit string's value is non-negative.
proof fn lemma_dec_value_nonneg(s: Seq<u8>)
    requires
        all_digits(s),
    ensures
        dec_value(s) >= 0,
    decreases s.len(),
{
    if s.len() > 0 {
        assert forall|i: int| 0 <= i < s.drop_last().len() implies is_digit(
            #[trigger] s.drop_last()[i],
        ) by {
            assert(s.drop_last()[i] == s[i]);
        }
        lemma_dec_value_nonneg(s.drop_last());
        assert(is_digit(s[s.len() - 1]));
    }
}

/// Extending a digit string never decreases its value.
proof fn lemma_dec_value_prefix(s: Seq<u8>, i: int)
    requires
        all_digits(s),
        0 <= i <= s.len(),
    ensures
        dec_value(s) >= dec_value(s.take(i)),
    decreases s.len() - i,
{
    if i < s.len() {
        let shorter = s.drop_last();
        assert forall|j: int| 0 <= j < shorter.len() implies is_digit(#[trigger] shorter[j]) by {
            assert(shorter[j] == s[j]);
        }
        assert(shorter.take(i) =~= s.take(i));
        lemma_dec_value_prefix(shorter, i);
        lemma_dec_value_nonneg(shorter);
        assert(is_digit(s[s.len() - 1]));
        assert(dec_value(s) == dec_value(shorter) * 10 + (s.last() - 48));
        assert(dec_value(shorter) * 10 >= dec_value(shorter));
    } else {
        assert(s.take(i) =~= s);
    }
}

/// `first_part_len` is pinned down by what characterizes it: no `sep`
/// before it, and a `sep` (or the end) at it.
proof fn lemma_first_part_len_unique(s: Seq<u8>, sep: u8, k: int)
    requires
        0 <= k <= s.len(),
        forall|i: int| 0 <= i < k ==> s[i] != sep,
        k < s.len() ==> s[k] == sep,
    ensures
        first_part_len(s, sep) == k,
    decreases k,
{
    if k == 0 {
        if s.len() > 0 {
            assert(s[0] == sep);
        }
    } else {
        assert(s[0] != sep);
        let rest = s.drop_first();
        assert forall|i: int| 0 <= i < k - 1 implies #[trigger] rest[i] != sep by {
            assert(rest[i] == s[i + 1]);
        }
        if k - 1 < rest.len() {
            assert(rest[k - 1] == s[k]);
        }
        lemma_first_part_len_unique(rest, sep, k - 1);
    }
}

/// Reads a digit string as a decimal value, rejecting values over
/// `limit`, non-digits, and nothing else. An empty string reads as 0.
fn decimal_value_upto(s: &[u8], limit: u32) -> (r: Option<u32>)
    requires
        limit <= 65535,
    ensures
        match r {
            Some(v) => all_digits(s@) && dec_value(s@) <= limit && v == dec_value(s@),
            None => !(all_digits(s@) && dec_value(s@) <= limit),
        },
{
    let mut acc: u32 = 0;
    let mut i: usize = 0;
    while i < s.len()
        invariant
            0 <= i <= s@.len(),
            limit <= 65535,
            all_digits(s@.take(i as int)),
            acc == dec_value(s@.take(i as int)),
            acc <= limit,
        decreases s@.len() - i,
    {
        let b = s[i];
        if b < 48 || b > 57 {
            assert(!is_digit(s@[i as int]));
            return None;
        }
        let d = (b - 48) as u32;
        let next = acc * 10 + d;
        proof {
            assert(s@.take(i as int + 1).drop_last() =~= s@.take(i as int));
            assert(s@.take(i as int + 1).last() == s@[i as int]);
            assert forall|j: int| 0 <= j < i + 1 implies is_digit(#[trigger] s@.take(i as int + 1)[j]) by {
                assert(s@.take(i as int + 1)[j] == s@[j]);
            }
        }
        if next > limit {
            proof {
                if all_digits(s@) {
                    lemma_dec_value_prefix(s@, i as int + 1);
                }
            }
            return None;
        }
        acc = next;
        i += 1;
    }
    proof {
        assert(s@.take(s@.len() as int) =~= s@);
    }
    Some(acc)
}

/// The result of reading a port number: defined exactly on non-empty
/// digit strings whose value fits in sixteen bits.
pub open spec fn spec_parse_u16(s: Seq<u8>) -> Option<u16> {
    if s.len() >= 1 && all_digits(s) && dec_value(s) <= 65535 {
        Some(dec_value(s) as u16)
    } else {
        None
    }
}

/// Reads a non-empty decimal digit string as a 16-bit value.
pub fn parse_u16(s: &[u8]) -> (r: Option<u16>)
    ensures
        r == spec_parse_u16(s@),
{
    if s.len() == 0 {
        return None;
    }
    match decimal_value_upto(s, 65535) {
        Some(v) => {
            proof {
                lemma_dec_value_nonneg(s@);
            }
            Some(v as u16)
        },
        None => None,
    }
}

/// The result of reading one dotted-quad octet.
pub open spec fn spec_parse_octet(s: Seq<u8>) -> Option<u8> {
    if valid_octet_text(s) {
        Some(dec_value(s) as u8)
    } else {
        None
    }
}

fn parse_octet(s: &[u8]) -> (r: Option<u8>)
    ensures
        r == spec_parse_octet(s@),
{
    if s.len() < 1 || s.len() > 3 {
        return None;
    }
    if s.len() > 1 && s[0] == ZERO_DIGIT {
        return None;
    }
    match decimal_value_upto(s, 255) {
        Some(v) => {
            proof {
                lemma_dec_value_nonneg(s@);
            }
            Some(v as u8)
        },
        None => None,
    }
}

/// An IPv4 address, one field per octet of the dotted-quad form.
#[derive(Clone, Copy, Debug, PartialEq, Eq, Structural)]
pub struct Ipv4Address {
    pub a: u8,
    pub b: u8,
    pub c: u8,
    pub d: u8,
}

/// The result of reading a dotted-quad address: defined exactly on
/// strings of four valid octets separated by single dots.
pub open spec fn spec_parse_ipv4(s: Seq<u8>) -> Option<Ipv4Address> {
    let parts = split_bytes(s, DOT);
    if parts.len() == 4 && valid_octet_text(parts[0]) && valid_octet_text(parts[1])
        && valid_octet_text(parts[2]) && valid_octet_text(parts[3]) {
        Some(
            Ipv4Address {
                a: dec_value(parts[0]) as u8,
                b: dec_value(parts[1]) as u8,
                c: dec_value(parts[2]) as u8,
                d: dec_value(parts[3]) as u8,
            },
        )
    } else {
        None
    }
}

/// Reads a dotted-quad IPv4 address.
pub fn parse_ipv4(s: &[u8]) -> (r: Option<Ipv4Address>)
    ensures
        r == spec_parse_ipv4(s@),
{
    let parts = split_on(s, DOT);
    if parts.len() != 4 {
        return None;
    }
    proof {
        assert forall|i: int| 0 <= i < 4 implies #[trigger] split_bytes(s@, DOT)[i] == parts@[i]@ by {
            assert(views_of_parts(parts@)[i] == parts@[i]@);
        }
    }
    let a = parse_octet(parts[0].as_slice());
    let b = parse_octet(parts[1].as_slice());
    let c = parse_octet(parts[2].as_slice());
    let d = parse_octet(parts[3].as_slice());
    match (a, b, c, d) {
        (Some(a), Some(b), Some(c), Some(d)) => Some(Ipv4Address { a, b, c, d }),
        _ => None,
    }
}

/// Splits `s` at every occurrence of `sep`, returning the parts in
/// order; separators are not kept, and empty parts are kept.
pub fn split_on(s: &[u8], sep: u8) -> (parts: Vec<Vec<u8>>)
    ensures
        views_of_parts(parts@) == split_bytes(s@, sep),
{
    let mut parts: Vec<Vec<u8>> = Vec::new();
    let mut i: usize = 0;
    proof {
        assert(s@.skip(0) =~= s@);
        assert(views_of_parts(parts@) =~= Seq::<Seq<u8>>::empty());
        assert(views_of_parts(parts@) + split_bytes(s@, sep) =~= split_bytes(s@, sep));
    }
    loop
        invariant_except_break
            0 <= i <= s@.len(),
            split_bytes(s@, sep) == views_of_parts(parts@) + split_bytes(s@.skip(i as int), sep),
        ensures
            views_of_parts(parts@) == split_bytes(s@, sep),
        decreases s@.len() - i,
    {
        let ghost entry_parts = parts@;
        let mut j = i;
        while j < s.len() && s[j] != sep
            invariant
                i <= j <= s@.len(),
                forall|t: int| i <= t < j ==> s@[t] != sep,
            decreases s@.len() - j,
        {
            j += 1;
        }
        proof {
            let suffix = s@.skip(i as int);
            assert forall|t: int| 0 <= t < j - i implies #[trigger] suffix[t] != sep by {
                assert(suffix[t] == s@[i + t]);
            }
            if j < s@.len() {
                assert(suffix[j - i] == s@[j as int]);
            }
            lemma_first_part_len_unique(suffix, sep, j - i as int);
        }
        let mut part: Vec<u8> = Vec::new();
        let mut t = i;
        while t < j
            invariant
                i <= t <= j <= s@.len(),
                part@ == s@.subrange(i as int, t as int),
            decreases j - t,
        {
            part.push(s[t]);
            t += 1;
        }
        let ghost part_view = part@;
        parts.push(part);
        if j == s.len() {
            proof {
                let suffix = s@.skip(i as int);
                assert(views_of_parts(parts@) =~= views_of_parts(entry_parts) + seq![part_view]);
                assert(part_view =~= suffix);
                assert(split_bytes(suffix, sep) == seq![suffix]);
                assert(views_of_parts(parts@) =~= views_of_parts(entry_parts) + split_bytes(
                    suffix,
                    sep,
                ));
            }
            break;
        }
        proof {
            let suffix = s@.skip(i as int);
            let k = (j - i) as int;
            assert(views_of_parts(parts@) =~= views_of_parts(entry_parts) + seq![part_view]);
            assert(suffix.take(k) =~= part_view);
            assert(suffix.skip(k + 1) =~= s@.skip(j as int + 1));
            assert(split_bytes(suffix, sep) == seq![suffix.take(k)] + split_bytes(
                suffix.skip(k + 1),
                sep,
            ));
            assert(views_of_parts(parts@) + split_bytes(s@.skip(j as int + 1), sep)
                =~= views_of_parts(entry_parts) + split_bytes(suffix, sep));
        }
        i = j + 1;
    }
    parts
}

/// Removes leading and trailing blanks (spaces and tabs).
pub fn trim_bytes(s: &[u8]) -> (t: Vec<u8>)
    ensures
        t@ == trim_spec(s@),
{
    let mut start: usize = 0;
    proof {
        assert(s@.skip(0) =~= s@);
    }
    while start < s.len() && (s[start] == SPACE || s[start] == TAB)
        invariant
            0 <= start <= s@.len(),
            trim_start_spec(s@) == trim_start_spec(s@.skip(start as int)),
        decreases s@.len() - start,
    {
        proof {
            assert(s@.skip(start as int)[0] == s@[start as int]);
            assert(s@.skip(start as int).drop_first() =~= s@.skip(start as int + 1));
        }
        start += 1;
    }
    proof {
        if start < s@.len() {
            assert(s@.skip(start as int)[0] == s@[start as int]);
        } else {
            assert(s@.skip(start as int) =~= Seq::<u8>::empty());
        }
        assert(trim_start_spec(s@) == s@.skip(start as int));
        assert(s@.subrange(start as int, s@.len() as int) =~= s@.skip(start as int));
    }
    let mut end: usize = s.len();
    while end > start && (s[end - 1] == SPACE || s[end - 1] == TAB)
        invariant
            start <= end <= s@.len(),
            trim_end_spec(s@.skip(start as int)) == trim_end_spec(
                s@.subrange(start as int, end as int),
            ),
        decreases end,
    {
        proof {
            assert(s@.subrange(start as int, end as int).last() == s@[end - 1]);
            assert(s@.subrange(start as int, end as int).drop_last() =~= s@.subrange(
                start as int,
                end as int - 1,
            ));
        }
        end -= 1;
    }
    proof {
        if end > start {
            assert(s@.subrange(start as int, end as int).last() == s@[end - 1]);
        }
        assert(trim_end_spec(s@.subrange(start as int, end as int)) == s@.subrange(
            start as int,
            end as int,
        ));
    }
    let mut t: Vec<u8> = Vec::new();
    let mut p = start;
    while p < end
        invariant
            start <= p <= end <= s@.len(),
            t@ == s@.subrange(start as int, p as int),
        decreases end - p,
    {
        t.push(s[p]);
        p += 1;
    }
    t
}

/// Splits `s` at every `sep` and trims each part, as a
/// comma-separated configuration list is read.
pub fn split_trimmed(s: &[u8], sep: u8) -> (parts: Vec<Vec<u8>>)
    ensures
        views_of_parts(parts@) == trimmed_split(s@, sep),
{
    let raw = split_on(s, sep);
    let mut parts: Vec<Vec<u8>> = Vec::new();
    let mut i: usize = 0;
    while i < raw.len()
        invariant
            0 <= i <= raw@.len(),
            views_of_parts(raw@) == split_bytes(s@, sep),
            views_of_parts(parts@) =~= split_bytes(s@, sep).take(i as int).map_values(
                |p: Seq<u8>| trim_spec(p),
            ),
        decreases raw@.len() - i,
    {
        let trimmed = trim_bytes(raw[i].as_slice());
        let ghost trimmed_view = trimmed@;
        parts.push(trimmed);
        proof {
            let whole = split_bytes(s@, sep);
            assert(views_of_parts(raw@)[i as int] == raw@[i as int]@);
            assert(whole[i as int] == raw@[i as int]@);
            assert(trimmed_view == trim_spec(whole[i as int]));
            assert(whole.take(i as int + 1) =~= whole.take(i as int).push(whole[i as int]));
            assert(whole.take(i as int + 1).map_values(|p: Seq<u8>| trim_spec(p)) =~= whole.take(
                i as int,
            ).map_values(|p: Seq<u8>| trim_spec(p)).push(trim_spec(whole[i as int])));
            assert(views_of_parts(parts@) =~= whole.take(i as int + 1).map_values(
                |p: Seq<u8>| trim_spec(p),
            ));
        }
        i += 1;
    }
    proof {
        assert(split_bytes(s@, sep).take(raw@.len() as int) =~= split_bytes(s@, sep));
        assert(views_of_parts(parts@) =~= trimmed_split(s@, sep));
    }
    parts
}

} // verus!
