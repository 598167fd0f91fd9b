use vstd::prelude::*;
use vstd::string::{StrSliceExecFns, StringExecFns};

verus! {

/// The whitespace that may surround user input: blank, tab, line feed and
/// carriage return.
pub open spec fn is_space(c: char) -> bool {
    c == ' ' || c == '\t' || c == '\n' || c == '\r'
}

pub open spec fn drop_leading_spaces(s: Seq<char>) -> Seq<char>
    decreases s.len(),
{
    if s.len() > 0 && is_space(s[0]) {
        drop_leading_spaces(s.drop_first())
    } else {
        s
    }
}

pub open spec fn drop_trailing_spaces(s: Seq<char>) -> Seq<char>
    decreases s.len(),
{
    if s.len() > 0 && is_space(s.last()) {
        drop_trailing_spaces(s.drop_last())
    } else {
        s
    }
}

/// The input without its leading and trailing whitespace.
pub open spec fn spec_trim(s: Seq<char>) -> Seq<char> {
    drop_trailing_spaces(drop_leading_spaces(s))
}

proof fn lemma_drop_leading_at(s: Seq<char>, i: int)
    requires
        0 <= i <= s.len(),
        forall|k: int| 0 <= k < i ==> is_space(#[trigger] s[k]),
        i == s.len() || !is_space(s[i]),
    ensures
        drop_leading_spaces(s) == s.subrange(i, s.len() as int),
    decreases i,
{
    if i == 0 {
        assert(s =~= s.subrange(0, s.len() as int));
    } else {
        let rest = s.drop_first();
        assert(is_space(s[0]));
        assert forall|k: int| 0 <= k < i - 1 implies is_space(#[trigger] rest[k]) by {
            assert(rest[k] == s[k + 1]);
        }
        lemma_drop_leading_at(rest, i - 1);
        assert(rest.subrange(i - 1, rest.len() as int) =~= s.subrange(i, s.len() as int));
    }
}

proof fn lemma_drop_trailing_at(s: Seq<char>, j: int)
    requires
        0 <= j <= s.len(),
        forall|k: int| j <= k < s.len() ==> is_space(#[trigger] s[k]),
        j == 0 || !is_space(s[j - 1]),
    ensures
        drop_trailing_spaces(s) == s.subrange(0, j),
    decreases s.len(),
{
    if j == s.len() {
        if s.len() > 0 {
            assert(!is_space(s.last()));
        }
        assert(s =~= s.subrange(0, j));
    } else {
        let rest = s.drop_last();
        assert(is_space(s.last()));
        assert forall|k: int| j <= k < rest.len() implies is_space(#[trigger] rest[k]) by {
            assert(rest[k] == s[k]);
        }
        if j > 0 {
            assert(rest[j - 1] == s[j - 1]);
        }
        lemma_drop_trailing_at(rest, j);
        assert(rest.subrange(0, j) =~= s.subrange(0, j));
    }
}

fn is_space_char(c: char) -> (r: bool)
    ensures
        r == is_space(c),
{
    c == ' ' || c == '\t' || c == '\n' || c == '\r'
}

/// The input without its leading and trailing whitespace.
pub fn trim(s: &str) -> (r: &str)
    ensures
        r@ == spec_trim(s@),
{
    let n = s.unicode_len();
    let mut start: usize = 0;
    while start < n && is_space_char(s.get_char(start))
        invariant
            0 <= start <= n,
            n == s@.len(),
            forall|k: int| 0 <= k < start ==> is_space(#[trigger] s@[k]),
        decreases n - start,
    {
        start += 1;
    }
    let mut end: usize = n;
    while end > start && is_space_char(s.get_char(end - 1))
        invariant
            start <= end <= n,
            n == s@.len(),
            forall|k: int| end <= k < n ==> is_space(#[trigger] s@[k]),
        decreases end,
    {
        end -= 1;
    }
    proof {
        lemma_drop_leading_at(s@, start as int);
        let led = s@.subrange(start as int, n as int);
        assert forall|k: int| (end - start) <= k < led.len() implies is_space(
            #[trigger] led[k],
        ) by {
            assert(led[k] == s@[start + k]);
        }
        if end > start {
            assert(led[end - start - 1] == s@[end - 1]);
        }
        lemma_drop_trailing_at(led, end - start);
        assert(led.subrange(0, end - start) =~= s@.subrange(start as int, end as int));
    }
    s.substring_char(start, end)
}

/// The words joined with single blanks: how a multi-word note is assembled
/// from the argument vector.
pub open spec fn spec_join(parts: Seq<Seq<char>>) -> Seq<char>
    decreases parts.len(),
{
    if parts.len() == 0 {
        Seq::empty()
    } else if parts.len() == 1 {
        parts[0]
    } else {
        spec_join(parts.drop_last()) + seq![' '] + parts.last()
    }
}

/// The views of a sequence of strings, in the same order.
pub open spec fn strings_view(v: Seq<String>) -> Seq<Seq<char>> {
    v.map_values(|s: String| s@)
}

/// Joins the arguments from position `start` on with single blanks.
pub fn join_from(args: &Vec<String>, start: usize) -> (r: String)
    requires
        start <= args@.len(),
    ensures
        r@ == spec_join(strings_view(args@).skip(start as int)),
{
    let mut r = String::new();
    let mut i = start;
    while i < args.len()
        invariant
            start <= i <= args@.len(),
            r@ == spec_join(strings_view(args@).subrange(start as int, i as int)),
        decreases args@.len() - i,
    {
        if i > start {
            r.append(" ");
        }
        r.append(args[i].as_str());
        proof {
            let whole = strings_view(args@);
            let prev = whole.subrange(start as int, i as int);
            let cur = whole.subrange(start as int, i + 1);
            assert(cur.drop_last() =~= prev);
            assert(cur.last() == args@[i as int]@);
            if i == start {
                reveal_strlit(" ");
                assert(cur =~= seq![args@[i as int]@]);
                assert(r@ =~= cur[0]);
            } else {
                reveal_strlit(" ");
                assert(r@ =~= spec_join(prev) + seq![' '] + args@[i as int]@);
            }
        }
        i += 1;
    }
    proof {
        assert(strings_view(args@).subrange(start as int, args@.len() as int) =~= strings_view(
            args@,
        ).skip(start as int));
    }
    r
}

pub open spec fn is_digit(c: char) -> bool {
    '0' as u32 <= c as u32 && c as u32 <= '9' as u32
}

pub open spec fn digit_val(c: char) -> int {
    c as u32 - '0' as u32
}

/// The value of a run of decimal digits, most significant first.
pub open spec fn digits_val(s: Seq<char>) -> int
    decreases s.len(),
{
    if s.len() == 0 {
        0
    } else {
        digits_val(s.drop_last()) * 10 + digit_val(s.last())
    }
}

pub open spec fn all_digits(s: Seq<char>) -> bool {
    forall|i: int| 0 <= i < s.len() ==> is_digit(#[trigger] s[i])
}

/// What follows the optional sign of a signed decimal literal.
pub open spec fn int_literal_body(s: Seq<char>) -> Seq<char> {
    if s.len() > 0 && (s[0] == '+' || s[0] == '-') {
        s.drop_first()
    } else {
        s
    }
}

pub open spec fn int_literal_negative(s: Seq<char>) -> bool {
    s.len() > 0 && s[0] == '-'
}

/// A well-formed signed decimal literal whose value fits an `i32`: exactly
/// the strings that parse as an ordinal.
pub open spec fn valid_i32_literal(s: Seq<char>) -> bool {
    &&& int_literal_body(s).len() > 0
    &&& all_digits(int_literal_body(s))
    &&& if int_literal_negative(s) {
        digits_val(int_literal_body(s)) <= 0x8000_0000
    } else {
        digits_val(int_literal_body(s)) <= 0x7fff_ffff
    }
}

pub open spec fn i32_literal_val(s: Seq<char>) -> int {
    if int_literal_negative(s) {
        -digits_val(int_literal_body(s))
    } else {
        digits_val(int_literal_body(s))
    }
}

proof fn lemma_digits_val_nonneg(s: Seq<char>)
    requires
        all_digits(s),
    ensures
        digits_val(s) >= 0,
    decreases s.len(),
{
    if s.len() > 0 {
        let prefix = s.drop_last();
        assert forall|i: int| 0 <= i < prefix.len() implies is_digit(#[trigger] prefix[i]) by {
            assert(prefix[i] == s[i]);
        }
        lemma_digits_val_nonneg(prefix);
        assert(is_digit(s[s.len() - 1]));
    }
}

/// More digits never shrink the value.
proof fn lemma_digits_val_monotonic(s: Seq<char>, m: int)
    requires
        all_digits(s),
        0 <= m <= s.len(),
    ensures
        digits_val(s) >= digits_val(s.take(m)),
    decreases s.len(),
{
    if m == s.len() {
        assert(s.take(m) =~= s);
    } else {
        let prefix = s.drop_last();
        assert forall|i: int| 0 <= i < prefix.len() implies is_digit(#[trigger] prefix[i]) by {
            assert(prefix[i] == s[i]);
        }
        assert(prefix.take(m) =~= s.take(m));
        lemma_digits_val_monotonic(prefix, m);
        lemma_digits_val_nonneg(prefix);
        assert(is_digit(s[s.len() - 1]));
    }
}

fn is_digit_char(c: char) -> (r: bool)
    ensures
        r == is_digit(c),
{
    let u = c as u32;
    ('0' as u32) <= u && u <= ('9' as u32)
}

/// Parses a signed decimal ordinal exactly as `str::parse::<i32>` does:
/// an optional sign, then one or more digits, value within `i32` range.
pub fn parse_i32(s: &str) -> (r: Option<i32>)
    ensures
        r matches Some(v) ==> valid_i32_literal(s@) && v as int == i32_literal_val(s@),
        r is None ==> !valid_i32_literal(s@),
{
    let n = s.unicode_len();
    if n == 0 {
        return None;
    }
    let c0 = s.get_char(0);
    let neg = c0 == '-';
    let body_start: usize = if c0 == '-' || c0 == '+' {
        1
    } else {
        0
    };
    if body_start == n {
        return None;
    }
    let ghost body = int_literal_body(s@);
    proof {
        if body_start == 1 {
            assert(body =~= s@.subrange(1, n as int));
        } else {
            assert(body =~= s@.subrange(0, n as int));
        }
    }
    let mut i: usize = body_start;
    let mut acc: u64 = 0;
    while i < n
        invariant
            body_start <= i <= n,
            n == s@.len(),
            body_start == 1 || body_start == 0,
            body_start == 1 ==> (s@[0] == '-' || s@[0] == '+'),
            body_start == 0 ==> !(s@[0] == '-' || s@[0] == '+'),
            body == int_literal_body(s@),
            body =~= s@.subrange(body_start as int, n as int),
            all_digits(body.take(i - body_start)),
            acc as int == digits_val(body.take(i - body_start)),
            acc <= 0x8000_0000,
        decreases n - i,
    {
        let c = s.get_char(i);
        if !is_digit_char(c) {
            proof {
                assert(body[i - body_start] == s@[i as int]);
            }
            return None;
        }
        let d = (c as u32 - '0' as u32) as u64;
        proof {
            assert(d as int == digit_val(c));
        }
        acc = acc * 10 + d;
        proof {
            let taken = body.take(i + 1 - body_start);
            assert(taken.drop_last() =~= body.take(i - body_start));
            assert(taken.last() == body[i - body_start]);
            assert(taken.last() == s@[i as int]);
        }
        if acc > 0x8000_0000 {
            proof {
                if all_digits(body) {
                    lemma_digits_val_monotonic(body, i + 1 - body_start);
                }
            }
            return None;
        }
        i += 1;
    }
    proof {
        assert(body.take(n - body_start) =~= body);
        assert(int_literal_negative(s@) == neg);
    }
    if neg {
        if acc == 0x8000_0000 {
            Some(i32::MIN)
        } else {
            Some(-(acc as i32))
        }
    } else {
        if acc > 0x7fff_ffff {
            return None;
        }
        Some(acc as i32)
    }
}

/// Whether two strings hold the same characters.
pub fn str_eq(a: &str, b: &str) -> (r: bool)
    ensures
        r == (a@ == b@),
{
    let x = String::from_str(a);
    let y = String::from_str(b);
    x == y
}

} // verus!
