//! Conversions between the two textual forms of a Steam account id:
//! `[U:1:<n>]` and the 64-bit decimal id `<n + STEAM64_BASE>`.
use crate::numeric::{all_digits, chars_of, is_digit, parse_range, parse_u64};
use vstd::prelude::*;
use vstd::string::StringExecFns;

verus! {

/// Offset between an account number and its 64-bit id.
pub const STEAM64_BASE: u64 = 76561197960265728;

/// Decimal digits of `n`, most significant first.
pub open spec fn decimal(n: nat) -> Seq<char>
    decreases n,
{
    if n < 10 {
        seq![('0' as nat + n) as char]
    } else {
        decimal(n / 10).push(('0' as nat + n % 10) as char)
    }
}

/// `s` without its trailing `]` characters.
pub open spec fn trim_brackets(s: Seq<char>) -> Seq<char>
    decreases s.len(),
{
    if s.len() > 0 && s.last() == ']' {
        trim_brackets(s.drop_last())
    } else {
        s
    }
}

/// The `:`-separated fields of `s`; there is always at least one.
pub open spec fn fields(s: Seq<char>) -> Seq<Seq<char>>
    decreases s.len(),
{
    if s.len() == 0 {
        seq![Seq::empty()]
    } else {
        let f = fields(s.drop_last());
        if s.last() == ':' {
            f.push(Seq::empty())
        } else {
            f.update(f.len() - 1, f.last().push(s.last()))
        }
    }
}

/// The 64-bit id of a `[U:1:<n>]` id: its third field, read as a number,
/// plus the base.
pub open spec fn id64_of(s: Seq<char>) -> Option<u64> {
    let f = fields(trim_brackets(s));
    if f.len() < 3 {
        None
    } else {
        match parse_u64(f[2]) {
            Some(n) => if n + STEAM64_BASE <= u64::MAX {
                Some((n + STEAM64_BASE) as u64)
            } else {
                None
            },
            None => None,
        }
    }
}

/// The `[U:1:<n>]` form of a 64-bit id above the base.
pub open spec fn id32_of(s: Seq<char>) -> Option<Seq<char>> {
    match parse_u64(s) {
        Some(n) => if n > STEAM64_BASE {
            Some("[U:1:"@ + decimal((n - STEAM64_BASE) as nat) + "]"@)
        } else {
            None
        },
        None => None,
    }
}

/// `pat` occurs in `s`.
pub open spec fn contains(s: Seq<char>, pat: Seq<char>) -> bool {
    exists|i: int| 0 <= i && i + pat.len() <= s.len() && #[trigger] s.subrange(i, i + pat.len()) == pat
}

/// Relies on the standard library's `Display` for `u64`: the decimal digits
/// of the value, most significant first, with no sign or padding.
#[verifier::external_body]
fn decimal_string(n: u64) -> (r: String)
    ensures
        r@ == decimal(n as nat),
{
    n.to_string()
}

/// Converts a `[U:1:<n>]` id to the 64-bit decimal id; `None` when the
/// third `:`-separated field (after trailing `]` are removed) is not a
/// number, or the id would not fit.
pub fn steamid_32_to_64(steamid32: &str) -> (r: Option<String>)
    ensures
        match r {
            Some(t) => id64_of(steamid32@) matches Some(n) && t@ == decimal(n as nat),
            None => id64_of(steamid32@) is None,
        },
{
    let chars = chars_of(steamid32);
    let mut end: usize = chars.len();
    assert(chars@.take(end as int) =~= chars@);
    while end > 0 && chars[end - 1] == ']'
        invariant
            end <= chars@.len(),
            trim_brackets(chars@) == trim_brackets(chars@.take(end as int)),
        decreases end,
    {
        assert(chars@.take(end as int).drop_last() =~= chars@.take(end - 1));
        end = end - 1;
    }
    let ghost trimmed = chars@.take(end as int);
    assert(trim_brackets(chars@) == trimmed);
    // Bounds of the third field.
    let mut colons: usize = 0;
    let mut i: usize = 0;
    let mut field_start: usize = 0;
    while i < end && colons < 2
        invariant
            i <= end <= chars@.len(),
            trimmed == chars@.take(end as int),
            colons <= 2,
            fields(trimmed.take(i as int)).len() == colons + 1,
            field_start <= i,
            fields(trimmed.take(i as int)).last() == trimmed.subrange(field_start as int, i as int),
        decreases end - i,
    {
        assert(trimmed.take(i + 1).drop_last() =~= trimmed.take(i as int));
        if chars[i] == ':' {
            colons = colons + 1;
            field_start = i + 1;
            assert(trimmed.subrange(field_start as int, i + 1) =~= Seq::<char>::empty());
        } else {
            assert(trimmed.subrange(field_start as int, i + 1) =~= trimmed.subrange(field_start as int, i as int).push(chars@[i as int]));
        }
        i = i + 1;
    }
    if colons < 2 {
        assert(trimmed.take(i as int) =~= trimmed);
        return None;
    }
    let mut j: usize = i;
    while j < end && chars[j] != ':'
        invariant
            i <= j <= end <= chars@.len(),
            trimmed == chars@.take(end as int),
            fields(trimmed.take(j as int)).len() == 3,
            fields(trimmed.take(j as int))[2] == trimmed.subrange(field_start as int, j as int),
            field_start <= i,
        decreases end - j,
    {
        assert(trimmed.take(j + 1).drop_last() =~= trimmed.take(j as int));
        assert(trimmed.subrange(field_start as int, j + 1) =~= trimmed.subrange(field_start as int, j as int).push(chars@[j as int]));
        j = j + 1;
    }
    proof {
        if j < end {
            assert(trimmed.take(j + 1).drop_last() =~= trimmed.take(j as int));
            lemma_fields_stable(trimmed, j + 1, end as int);
            assert(trimmed.take(end as int) =~= trimmed);
        } else {
            assert(trimmed.take(j as int) =~= trimmed);
        }
    }
    assert(trimmed.subrange(field_start as int, j as int) =~= chars@.subrange(field_start as int, j as int));
    match parse_range(&chars, field_start, j) {
        Some(n) => {
            if n > u64::MAX - STEAM64_BASE {
                None
            } else {
                Some(decimal_string(n + STEAM64_BASE))
            }
        },
        None => None,
    }
}

/// Fields already complete in a prefix stay as they are in a longer
/// prefix.
proof fn lemma_fields_stable(s: Seq<char>, k: int, m: int)
    requires
        0 <= k <= m <= s.len(),
    ensures
        fields(s.take(m)).len() >= fields(s.take(k)).len(),
        forall|j: int|
            0 <= j < fields(s.take(k)).len() - 1 ==> #[trigger] fields(s.take(m))[j] == fields(
                s.take(k),
            )[j],
    decreases m - k,
{
    if m > k {
        lemma_fields_stable(s, k, m - 1);
        assert(s.take(m).drop_last() =~= s.take(m - 1));
        assert(fields(s.take(m - 1)).len() >= 1) by {
            lemma_fields_nonempty(s.take(m - 1));
        }
    }
}

proof fn lemma_fields_nonempty(s: Seq<char>)
    ensures
        fields(s).len() >= 1,
    decreases s.len(),
{
    if s.len() > 0 {
        lemma_fields_nonempty(s.drop_last());
    }
}

/// Converts a 64-bit decimal id above the base to its `[U:1:<n>]` form;
/// `None` when the text is not a `u64` or not above the base.
pub fn steamid_64_to_32(steamid64: &str) -> (r: Option<String>)
    ensures
        match r {
            Some(t) => id32_of(steamid64@) == Some(t@),
            None => id32_of(steamid64@) is None,
        },
{
    let chars = chars_of(steamid64);
    assert(chars@.subrange(0, chars@.len() as int) =~= steamid64@);
    match parse_range(&chars, 0, chars.len()) {
        Some(n) => {
            if n > STEAM64_BASE {
                let mut out = String::from_str("[U:1:");
                let digits = decimal_string(n - STEAM64_BASE);
                out.append(digits.as_str());
                out.append("]");
                Some(out)
            } else {
                None
            }
        },
        None => None,
    }
}

/// The marker of a `[U:1:<n>]` id.
pub open spec fn marker() -> Seq<char> {
    seq!['[', 'U', ':', '1', ':']
}

/// Both forms of an id given in either: `([U:1:<n>], <64-bit id>)`.
pub open spec fn normalized(s: Seq<char>) -> Option<(Seq<char>, Seq<char>)> {
    if contains(s, marker()) {
        match id64_of(s) {
            Some(n) => Some((s, decimal(n as nat))),
            None => None,
        }
    } else if all_digits(s) && s.len() >= 16 {
        match id32_of(s) {
            Some(t) => Some((t, s)),
            None => None,
        }
    } else {
        None
    }
}

fn has_marker(chars: &Vec<char>) -> (r: bool)
    ensures
        r == contains(chars@, marker()),
{
    let n = chars.len();
    if n < 5 {
        assert forall|i: int| 0 <= i && i + marker().len() <= chars@.len() implies #[trigger] chars@.subrange(i, i + marker().len()) != marker() by {
        }
        return false;
    }
    let mut i: usize = 0;
    while i <= n - 5
        invariant
            5 <= n == chars@.len(),
            i <= n - 4,
            forall|k: int| 0 <= k < i ==> #[trigger] chars@.subrange(k, k + 5) != marker(),
        decreases n - i,
    {
        if chars[i] == '[' && chars[i + 1] == 'U' && chars[i + 2] == ':' && chars[i + 3] == '1'
            && chars[i + 4] == ':' {
            assert(chars@.subrange(i as int, i + 5) =~= marker());
            return true;
        }
        assert(chars@.subrange(i as int, i + 5)[0] == chars@[i as int]);
        assert(chars@.subrange(i as int, i + 5)[1] == chars@[i + 1]);
        assert(chars@.subrange(i as int, i + 5)[2] == chars@[i + 2]);
        assert(chars@.subrange(i as int, i + 5)[3] == chars@[i + 3]);
        assert(chars@.subrange(i as int, i + 5)[4] == chars@[i + 4]);
        i = i + 1;
    }
    false
}

/// Given either form of an id, returns both, `[U:1:<n>]` first. A text
/// holding `[U:1:` is read as the short form; a text of at least 16 digits
/// as the 64-bit form; anything else, or a conversion that fails, gives
/// `None`.
pub fn normalize_steamid(input: &str) -> (r: Option<(String, String)>)
    ensures
        match r {
            Some((a, b)) => normalized(input@) == Some((a@, b@)),
            None => normalized(input@) is None,
        },
{
    let chars = chars_of(input);
    if has_marker(&chars) {
        match steamid_32_to_64(input) {
            Some(id64) => Some((String::from_str(input), id64)),
            None => None,
        }
    } else {
        let mut k: usize = 0;
        while k < chars.len()
            invariant
                k <= chars@.len(),
                chars@ == input@,
                !contains(input@, marker()),
                forall|j: int| 0 <= j < k ==> is_digit(#[trigger] chars@[j]),
            decreases chars.len() - k,
        {
            if !('0' <= chars[k] && chars[k] <= '9') {
                assert(!is_digit(chars@[k as int]));
                assert(!all_digits(input@));
                return None;
            }
            k = k + 1;
        }
        if chars.len() >= 16 {
            match steamid_64_to_32(input) {
                Some(id32) => Some((id32, String::from_str(input))),
                None => None,
            }
        } else {
            None
        }
    }
}

} // verus!
