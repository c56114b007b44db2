//! Text helpers: decimal rendering and parsing, joining, replacing,
//! prefix tests and the removal of markup tags.
use vstd::prelude::*;

verus! {

/// Appends one character, by std's `String::push`.  Trusted, not proved:
/// the contract claims what std documents of `push`, that the string's
/// characters afterwards are the old ones followed by `c`.
#[verifier::external_body]
pub fn append_char(s: &mut String, c: char)
    ensures
        final(s)@ == old(s)@.push(c),
{
    s.push(c);
}

/// The characters of `s`, in order.
pub fn chars_vec(s: &str) -> (v: Vec<char>)
    ensures
        v@ == s@,
{
    let mut v: Vec<char> = Vec::new();
    for c in it: s.chars()
        invariant
            v@ == it.seq().take(it.index() as int),
    {
        v.push(c);
    }
    v
}

/// `a == b` on string slices.
pub fn str_eq(a: &str, b: &str) -> (r: bool)
    ensures
        r == (a@ == b@),
{
    let x = a.to_owned();
    let y = b.to_owned();
    x == y
}

/// The character of a decimal digit.
pub open spec fn digit_char(d: nat) -> char {
    ((d + 48) as u8) as char
}

/// The decimal text of a natural number, without leading zeros.
pub open spec fn dec(n: nat) -> Seq<char>
    decreases n,
{
    if n < 10 {
        seq![digit_char(n)]
    } else {
        dec(n / 10).push(digit_char(n % 10))
    }
}

/// Appends the decimal text of `n`.
pub fn append_dec(out: &mut String, n: u64)
    ensures
        final(out)@ == old(out)@ + dec(n as nat),
    decreases n,
{
    if n >= 10 {
        append_dec(out, n / 10);
    }
    let d = (n % 10) as u8;
    append_char(out, (d + 48) as char);
    proof {
        assert(out@ =~= old(out)@ + dec(n as nat));
    }
}

/// The decimal text of `n`.
pub fn dec_text(n: u64) -> (r: String)
    ensures
        r@ == dec(n as nat),
{
    let mut out = String::new();
    append_dec(&mut out, n);
    proof {
        assert(out@ =~= dec(n as nat));
    }
    out
}

pub open spec fn is_digit(c: char) -> bool {
    '0' <= c && c <= '9'
}

pub open spec fn all_digits(s: Seq<char>) -> bool {
    forall|i: int| 0 <= i < s.len() ==> is_digit(#[trigger] s[i])
}

/// The value of a run of decimal digits.
pub open spec fn digits_value(s: Seq<char>) -> nat
    decreases s.len(),
{
    if s.len() == 0 {
        0
    } else {
        digits_value(s.drop_last()) * 10 + ((s.last() as u32) - 48) as nat
    }
}

/// How `str::parse` reads an unsigned integer type whose largest value is
/// `max`: an optional `+`, then one or more decimal digits whose value does
/// not exceed `max`.
pub open spec fn parse_unsigned(s: Seq<char>, max: nat) -> Option<nat> {
    let d = if s.len() > 0 && s[0] == '+' {
        s.drop_first()
    } else {
        s
    };
    if d.len() > 0 && all_digits(d) && digits_value(d) <= max {
        Some(digits_value(d))
    } else {
        None
    }
}

proof fn lemma_digits_value_grows(s: Seq<char>, i: int)
    requires
        0 <= i <= s.len(),
        all_digits(s),
    ensures
        digits_value(s.take(i)) <= digits_value(s),
    decreases s.len() - i,
{
    if i < s.len() {
        lemma_digits_value_grows(s, i + 1);
        assert(s.take(i + 1).drop_last() =~= s.take(i));
        assert(is_digit(s[i]));
    } else {
        assert(s.take(i) =~= s);
    }
}

/// `s.parse()` for an unsigned type whose largest value is `max`.
pub fn parse_unsigned_exec(s: &str, max: u64) -> (r: Option<u64>)
    requires
        max >= 9,
    ensures
        match r {
            Some(v) => parse_unsigned(s@, max as nat) == Some(v as nat),
            None => parse_unsigned(s@, max as nat) is None,
        },
{
    let cs = chars_vec(s);
    let start: usize = if cs.len() > 0 && cs[0] == '+' {
        1
    } else {
        0
    };
    let ghost d = if s@.len() > 0 && s@[0] == '+' {
        s@.drop_first()
    } else {
        s@
    };
    assert(d =~= s@.skip(start as int));
    if start >= cs.len() {
        return None;
    }
    let mut value: u64 = 0;
    let mut i: usize = start;
    assert(d.take(0) =~= Seq::<char>::empty());
    while i < cs.len()
        invariant
            start <= i <= cs@.len(),
            cs@ == s@,
            d == s@.skip(start as int),
            d == (if s@.len() > 0 && s@[0] == '+' {
                s@.drop_first()
            } else {
                s@
            }),
            max >= 9,
            all_digits(d.take(i - start)),
            value as nat == digits_value(d.take(i - start)),
            value <= max,
        decreases cs.len() - i,
    {
        let c = cs[i];
        proof {
            assert(d.take(i + 1 - start).drop_last() =~= d.take(i - start));
            assert(d.take(i + 1 - start).last() == c);
        }
        if c < '0' || c > '9' {
            proof {
                assert(d[i - start] == c);
                assert(!is_digit(d[i - start]));
                assert(!all_digits(d));
            }
            return None;
        }
        assert(48 <= (c as u32) <= 57);
        let digit = (c as u32 - 48) as u64;
        if value > (max - digit) / 10 {
            proof {
                assert(value * 10 + digit > max) by (nonlinear_arith)
                    requires
                        value > (max - digit) / 10,
                        digit <= max,
                ;
                if all_digits(d) {
                    lemma_digits_value_grows(d, i + 1 - start);
                }
            }
            return None;
        }
        assert(value * 10 + digit <= max) by (nonlinear_arith)
            requires
                value <= (max - digit) / 10,
                digit <= max,
        ;
        value = value * 10 + digit;
        i += 1;
    }
    proof {
        assert(d.take(i - start) =~= d);
    }
    Some(value)
}

/// `s.parse::<u32>().unwrap_or(0)`.
pub fn parse_u32_or_zero(s: &str) -> (r: u32)
    ensures
        r == match parse_unsigned(s@, u32::MAX as nat) {
            Some(v) => v,
            None => 0,
        },
{
    match parse_unsigned_exec(s, 4294967295) {
        Some(v) => v as u32,
        None => 0,
    }
}

/// `s.parse::<u8>().ok()`.
pub fn parse_u8(s: &str) -> (r: Option<u8>)
    ensures
        match r {
            Some(v) => parse_unsigned(s@, u8::MAX as nat) == Some(v as nat),
            None => parse_unsigned(s@, u8::MAX as nat) is None,
        },
{
    match parse_unsigned_exec(s, 255) {
        Some(v) => Some(v as u8),
        None => None,
    }
}

/// The parts joined with `sep` between each two.
pub open spec fn joined(parts: Seq<Seq<char>>, sep: Seq<char>) -> Seq<char>
    decreases parts.len(),
{
    if parts.len() == 0 {
        seq![]
    } else if parts.len() == 1 {
        parts[0]
    } else {
        joined(parts.drop_last(), sep) + sep + parts.last()
    }
}

/// The views of a sequence of strings.
pub open spec fn views(v: Seq<String>) -> Seq<Seq<char>> {
    v.map_values(|s: String| s@)
}

/// `parts.join(sep)`.
pub fn join(parts: &Vec<String>, sep: &str) -> (r: String)
    ensures
        r@ == joined(views(parts@), sep@),
{
    let mut out = String::new();
    let mut i: usize = 0;
    while i < parts.len()
        invariant
            i <= parts@.len(),
            out@ == joined(views(parts@.take(i as int)), sep@),
        decreases parts.len() - i,
    {
        proof {
            assert(views(parts@.take(i + 1)).drop_last() =~= views(parts@.take(i as int)));
            assert(views(parts@.take(i + 1)).last() == parts@[i as int]@);
            if i == 0 {
                assert(views(parts@.take(1))[0] == parts@[0]@);
            }
        }
        if i > 0 {
            out.append(sep);
        }
        out.append(parts[i].as_str());
        proof {
            assert(out@ =~= joined(views(parts@.take(i + 1)), sep@));
        }
        i += 1;
    }
    proof {
        assert(parts@.take(parts@.len() as int) =~= parts@);
    }
    out
}

/// `s` with every occurrence of `c` replaced by `with`.
pub open spec fn replaced(s: Seq<char>, c: char, with: Seq<char>) -> Seq<char>
    decreases s.len(),
{
    if s.len() == 0 {
        seq![]
    } else {
        replaced(s.drop_last(), c, with) + if s.last() == c {
            with
        } else {
            seq![s.last()]
        }
    }
}

/// `s.replace(c, with)`.
pub fn replace_char(s: &str, c: char, with: &str) -> (r: String)
    ensures
        r@ == replaced(s@, c, with@),
{
    let mut out = String::new();
    let cs = chars_vec(s);
    let mut i: usize = 0;
    while i < cs.len()
        invariant
            i <= cs@.len(),
            cs@ == s@,
            out@ == replaced(s@.take(i as int), c, with@),
        decreases cs.len() - i,
    {
        proof {
            assert(s@.take(i + 1).drop_last() =~= s@.take(i as int));
        }
        if cs[i] == c {
            out.append(with);
        } else {
            append_char(&mut out, cs[i]);
        }
        proof {
            assert(out@ =~= replaced(s@.take(i + 1), c, with@));
        }
        i += 1;
    }
    proof {
        assert(s@.take(cs@.len() as int) =~= s@);
    }
    out
}

pub open spec fn has_prefix(s: Seq<char>, p: Seq<char>) -> bool {
    p.len() <= s.len() && s.take(p.len() as int) == p
}

/// `s.starts_with(p)`.
pub fn starts_with(s: &str, p: &str) -> (r: bool)
    ensures
        r == has_prefix(s@, p@),
{
    let a = chars_vec(s);
    let b = chars_vec(p);
    if b.len() > a.len() {
        return false;
    }
    let mut i: usize = 0;
    while i < b.len()
        invariant
            i <= b@.len() <= a@.len(),
            a@ == s@,
            b@ == p@,
            forall|j: int| 0 <= j < i ==> a@[j] == b@[j],
        decreases b.len() - i,
    {
        if a[i] != b[i] {
            proof {
                assert(s@.take(p@.len() as int)[i as int] != p@[i as int]);
            }
            return false;
        }
        i += 1;
    }
    proof {
        assert(s@.take(p@.len() as int) =~= p@);
    }
    true
}

/// The state of tag removal after reading `s`: the text kept so far and
/// whether the reader is inside a `<...>` tag.
pub open spec fn strip_state(s: Seq<char>) -> (Seq<char>, bool)
    decreases s.len(),
{
    if s.len() == 0 {
        (seq![], false)
    } else {
        let (kept, in_tag) = strip_state(s.drop_last());
        let c = s.last();
        if c == '<' {
            (kept, true)
        } else if c == '>' {
            (kept, false)
        } else if !in_tag {
            (kept.push(c), in_tag)
        } else {
            (kept, in_tag)
        }
    }
}

/// `s` with every `<...>` tag removed: a `<` opens a tag, a `>` closes it,
/// and the characters outside tags are kept.
pub open spec fn stripped(s: Seq<char>) -> Seq<char> {
    strip_state(s).0
}

/// Removes markup tags from `input`.
pub fn clean_html(input: &str) -> (r: String)
    ensures
        r@ == stripped(input@),
{
    let mut output = String::new();
    let mut in_tag = false;
    let cs = chars_vec(input);
    let mut i: usize = 0;
    while i < cs.len()
        invariant
            i <= cs@.len(),
            cs@ == input@,
            strip_state(input@.take(i as int)) == (output@, in_tag),
        decreases cs.len() - i,
    {
        proof {
            assert(input@.take(i + 1).drop_last() =~= input@.take(i as int));
        }
        let c = cs[i];
        if c == '<' {
            in_tag = true;
        } else if c == '>' {
            in_tag = false;
        } else if !in_tag {
            append_char(&mut output, c);
        }
        i += 1;
    }
    proof {
        assert(input@.take(cs@.len() as int) =~= input@);
    }
    output
}

pub open spec fn no_brackets(s: Seq<char>) -> bool {
    forall|i: int| 0 <= i < s.len() ==> s[i] != '<' && s[i] != '>'
}

proof fn lemma_strip_state_no_brackets(s: Seq<char>)
    ensures
        no_brackets(strip_state(s).0),
    decreases s.len(),
{
    if s.len() > 0 {
        lemma_strip_state_no_brackets(s.drop_last());
    }
}

proof fn lemma_strip_state_identity(s: Seq<char>)
    requires
        no_brackets(s),
    ensures
        strip_state(s) == (s, false),
    decreases s.len(),
{
    if s.len() > 0 {
        lemma_strip_state_identity(s.drop_last());
        assert(s.drop_last().push(s.last()) =~= s);
    }
}

/// Tag removal leaves no `<` or `>` behind, so removing tags from its output
/// changes nothing.
pub proof fn law_clean_html_idempotent(s: Seq<char>)
    ensures
        no_brackets(stripped(s)),
        stripped(stripped(s)) == stripped(s),
{
    lemma_strip_state_no_brackets(s);
    lemma_strip_state_identity(stripped(s));
}

/// `idx` picks, in increasing order, positions of `b` holding the
/// characters of `a`.
pub open spec fn picks(a: Seq<char>, b: Seq<char>, idx: Seq<int>) -> bool {
    &&& idx.len() == a.len()
    &&& forall|i: int| 0 <= i < idx.len() ==> 0 <= #[trigger] idx[i] < b.len() && a[i] == b[idx[i]]
    &&& forall|i: int, j: int| 0 <= i < j < idx.len() ==> idx[i] < idx[j]
}

/// `a` is `b` with some characters deleted.
pub open spec fn subsequence_of(a: Seq<char>, b: Seq<char>) -> bool {
    exists|idx: Seq<int>| picks(a, b, idx)
}

proof fn lemma_strip_state_picks(s: Seq<char>) -> (idx: Seq<int>)
    ensures
        picks(strip_state(s).0, s, idx),
    decreases s.len(),
{
    if s.len() == 0 {
        Seq::empty()
    } else {
        let prev = lemma_strip_state_picks(s.drop_last());
        let kept = strip_state(s.drop_last()).0;
        assert(forall|i: int| 0 <= i < prev.len() ==> #[trigger] prev[i] < s.len() - 1);
        assert(forall|k: int| 0 <= k < s.len() - 1 ==> s.drop_last()[k] == #[trigger] s[k]);
        if strip_state(s).0 == kept {
            prev
        } else {
            let idx = prev.push(s.len() - 1);
            assert(strip_state(s).0 == kept.push(s.last()));
            assert forall|i: int| 0 <= i < idx.len() implies 0 <= #[trigger] idx[i] < s.len()
                && strip_state(s).0[i] == s[idx[i]] by {
                if i < prev.len() {
                    assert(idx[i] == prev[i]);
                }
            }
            idx
        }
    }
}

/// Tag removal only deletes characters: what it keeps comes in the order of
/// its input; and text without `<` or `>` comes out unchanged.
pub proof fn law_clean_html_keeps_text(s: Seq<char>)
    ensures
        subsequence_of(stripped(s), s),
        no_brackets(s) ==> stripped(s) == s,
{
    let idx = lemma_strip_state_picks(s);
    assert(picks(stripped(s), s, idx));
    if no_brackets(s) {
        lemma_strip_state_identity(s);
    }
}

proof fn lemma_dec_digits(n: nat)
    ensures
        dec(n).len() > 0,
        all_digits(dec(n)),
        digits_value(dec(n)) == n,
        dec(n)[0] != '+',
    decreases n,
{
    if n >= 10 {
        lemma_dec_digits(n / 10);
        let d = dec(n / 10).push(digit_char(n % 10));
        assert(d.drop_last() =~= dec(n / 10));
        assert(d.last() == digit_char((n % 10) as nat));
        assert(((digit_char((n % 10) as nat) as u32) - 48) as nat == n % 10);
        assert(n == (n / 10) * 10 + n % 10);
        assert(dec(n) == d);
        assert(digits_value(d) == digits_value(dec(n / 10)) * 10 + n % 10);
        assert(digits_value(dec(n)) == n);
    } else {
        assert(((digit_char(n) as u32) - 48) as nat == n);
        assert(dec(n).drop_last() =~= Seq::<char>::empty());
        assert(dec(n).last() == digit_char(n));
        assert(digits_value(dec(n)) == digits_value(dec(n).drop_last()) * 10 + n);
        assert(digits_value(dec(n)) == n);
    }
}

/// Reading back the decimal text of a number that fits gives the number.
pub proof fn law_parse_of_dec(n: nat, max: nat)
    requires
        n <= max,
    ensures
        parse_unsigned(dec(n), max) == Some(n),
{
    lemma_dec_digits(n);
}

} // verus!
