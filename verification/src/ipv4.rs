//! IPv4 addresses: four octets, written and read in dotted-decimal form.

use vstd::prelude::*;

verus! {

/// Why a dotted-decimal address string was rejected.
#[derive(Debug, Clone, Copy, PartialEq, Eq)]
pub enum ParseAddrError {
    /// Fewer than four components.
    NotEnoughParts,
    /// More than four components.
    TooManyParts,
    /// A component that is not a decimal numeral in `[0, 255]`.
    InvalidComponent,
}

/// An IPv4 address: four raw octets, in the order they are written.
/// Two addresses are equal exactly when their octets are.
#[derive(Debug, Clone, Copy, PartialEq, Eq)]
pub struct Addr(pub [u8; 4]);

/// `c` is a decimal digit.
pub open spec fn is_dec_digit(c: char) -> bool {
    48 <= c as int && c as int <= 57
}

/// The value of the decimal digit `c`.
pub open spec fn digit_val(c: char) -> nat {
    (c as int - 48) as nat
}

/// The decimal digit with value `d`.
pub open spec fn digit_char(d: nat) -> char {
    if d == 0 {
        '0'
    } else if d == 1 {
        '1'
    } else if d == 2 {
        '2'
    } else if d == 3 {
        '3'
    } else if d == 4 {
        '4'
    } else if d == 5 {
        '5'
    } else if d == 6 {
        '6'
    } else if d == 7 {
        '7'
    } else if d == 8 {
        '8'
    } else {
        '9'
    }
}

/// The value of `t` read as a decimal numeral.
pub open spec fn numeral_val(t: Seq<char>) -> nat
    decreases t.len(),
{
    if t.len() == 0 {
        0
    } else {
        numeral_val(t.drop_last()) * 10 + digit_val(t.last())
    }
}

/// `t` is a decimal numeral: nonempty and all digits.
pub open spec fn is_numeral(t: Seq<char>) -> bool {
    t.len() > 0 && (forall|i: int| 0 <= i < t.len() ==> is_dec_digit(#[trigger] t[i]))
}

/// `t` is the text of one address component: a numeral whose value fits an octet.
pub open spec fn is_octet_text(t: Seq<char>) -> bool {
    is_numeral(t) && numeral_val(t) <= 255
}

/// The canonical decimal numeral for `n`: no leading zeros.
pub open spec fn dec_rep(n: nat) -> Seq<char>
    decreases n,
{
    if n < 10 {
        seq![digit_char(n)]
    } else {
        dec_rep(n / 10).push(digit_char(n % 10))
    }
}

/// `s` split at every dot. The empty string is one empty component;
/// each dot ends a component, so `n` dots give `n + 1` components.
pub open spec fn dot_parts(s: Seq<char>) -> Seq<Seq<char>>
    decreases s.len(),
{
    if s.len() == 0 {
        seq![Seq::<char>::empty()]
    } else if s[0] == '.' {
        seq![Seq::<char>::empty()] + dot_parts(s.drop_first())
    } else {
        let rest = dot_parts(s.drop_first());
        seq![seq![s[0]] + rest[0]] + rest.drop_first()
    }
}

/// The dotted-decimal text of `a`: each octet as a canonical numeral,
/// the four separated by dots.
pub open spec fn addr_text(a: Addr) -> Seq<char> {
    dec_rep(a.0[0] as nat) + seq!['.'] + dec_rep(a.0[1] as nat) + seq!['.'] + dec_rep(
        a.0[2] as nat,
    ) + seq!['.'] + dec_rep(a.0[3] as nat)
}

/// The first `k` components of `parts` are octet texts.
pub open spec fn octets_upto(parts: Seq<Seq<char>>, k: int) -> bool {
    forall|i: int| 0 <= i < k && i < parts.len() ==> is_octet_text(#[trigger] parts[i])
}

/// What parsing `s` as a dotted-decimal address yields. Components are
/// examined left to right, at most four of them: a component that is not a
/// decimal numeral in `[0, 255]` is reported before a missing fifth
/// component or a superfluous one is.
pub open spec fn parse_result(s: Seq<char>) -> Result<Addr, ParseAddrError> {
    let parts = dot_parts(s);
    if exists|k: int|
        0 <= k < parts.len() && k < 4 && !is_octet_text(#[trigger] parts[k]) && octets_upto(
            parts,
            k,
        ) {
        Err(ParseAddrError::InvalidComponent)
    } else if parts.len() < 4 {
        Err(ParseAddrError::NotEnoughParts)
    } else if parts.len() > 4 {
        Err(ParseAddrError::TooManyParts)
    } else {
        Ok(
            Addr(
                [
                    numeral_val(parts[0]) as u8,
                    numeral_val(parts[1]) as u8,
                    numeral_val(parts[2]) as u8,
                    numeral_val(parts[3]) as u8,
                ],
            ),
        )
    }
}

/// A canonical decimal numeral is nonempty, all digits, and reads back to
/// the number it was written from.
proof fn lemma_dec_rep_digits(n: nat)
    ensures
        dec_rep(n).len() >= 1,
        forall|i: int| 0 <= i < dec_rep(n).len() ==> is_dec_digit(#[trigger] dec_rep(n)[i]),
        numeral_val(dec_rep(n)) == n,
    decreases n,
{
    if n < 10 {
        assert(numeral_val(seq![digit_char(n)].drop_last()) == 0) by {
            assert(seq![digit_char(n)].drop_last() =~= Seq::<char>::empty());
        }
    } else {
        lemma_dec_rep_digits(n / 10);
        let w = dec_rep(n / 10).push(digit_char(n % 10));
        assert(w.drop_last() =~= dec_rep(n / 10));
        assert(digit_val(digit_char(n % 10)) == n % 10);
    }
}

/// Writing a numeral down and reading it back changes nothing, provided it
/// had no leading zero (the one-digit numeral `0` included).
proof fn lemma_canonical_dec_rep(t: Seq<char>)
    requires
        is_numeral(t),
        t.len() == 1 || t[0] != '0',
    ensures
        dec_rep(numeral_val(t)) == t,
    decreases t.len(),
{
    if t.len() == 1 {
        let c = t[0];
        assert(t.drop_last() =~= Seq::<char>::empty());
        assert(numeral_val(t.drop_last()) == 0);
        assert(numeral_val(t) == digit_val(c));
        assert(digit_char(digit_val(c)) == c);
        assert(dec_rep(numeral_val(t)) =~= t);
    } else {
        let u = t.drop_last();
        assert(is_numeral(u));
        lemma_canonical_dec_rep(u);
        assert(numeral_val(u) >= 1) by {
            if numeral_val(u) == 0 {
                lemma_numeral_val_first_digit(u);
            }
        }
        let n = numeral_val(t);
        assert(n == numeral_val(u) * 10 + digit_val(t.last()));
        assert(n >= 10);
        assert(n / 10 == numeral_val(u) && n % 10 == digit_val(t.last()));
        assert(digit_char(digit_val(t.last())) == t.last());
        assert(dec_rep(n) == dec_rep(numeral_val(u)).push(digit_char(n % 10)));
        assert(dec_rep(n) =~= t);
    }
}

/// A numeral with value zero can only start with the digit zero.
proof fn lemma_numeral_val_first_digit(t: Seq<char>)
    requires
        is_numeral(t),
        numeral_val(t) == 0,
    ensures
        t[0] == '0',
    decreases t.len(),
{
    if t.len() == 1 {
        assert(numeral_val(t) == digit_val(t[0])) by {
            assert(t.drop_last() =~= Seq::<char>::empty());
        }
        assert(t[0] as int == 48);
    } else {
        assert(numeral_val(t.drop_last()) == 0);
        assert(is_numeral(t.drop_last()));
        lemma_numeral_val_first_digit(t.drop_last());
        assert(t.drop_last()[0] == t[0]);
    }
}

/// The one-character string holding the decimal digit with value `d`.
fn digit_str(d: u8) -> (r: &'static str)
    requires
        d < 10,
    ensures
        r@ =~= seq![digit_char(d as nat)],
{
    proof {
        reveal_strlit("0");
        reveal_strlit("1");
        reveal_strlit("2");
        reveal_strlit("3");
        reveal_strlit("4");
        reveal_strlit("5");
        reveal_strlit("6");
        reveal_strlit("7");
        reveal_strlit("8");
        reveal_strlit("9");
    }
    match d {
        0 => "0",
        1 => "1",
        2 => "2",
        3 => "3",
        4 => "4",
        5 => "5",
        6 => "6",
        7 => "7",
        8 => "8",
        _ => "9",
    }
}

/// Append the canonical decimal numeral for `v` to `out`.
fn append_octet(out: &mut String, v: u8)
    ensures
        final(out)@ == old(out)@ + dec_rep(v as nat),
{
    if v >= 100 {
        out.append(digit_str(v / 100));
        out.append(digit_str((v / 10) % 10));
        out.append(digit_str(v % 10));
        proof {
            assert(dec_rep((v / 10) as nat) == dec_rep((v / 100) as nat).push(
                digit_char(((v / 10) % 10) as nat),
            )) by {
                assert((v as nat / 10) / 10 == v as nat / 100);
                assert((v as nat / 10) % 10 == ((v / 10) % 10) as nat);
            }
            assert(out@ =~= old(out)@ + dec_rep(v as nat));
        }
    } else if v >= 10 {
        out.append(digit_str(v / 10));
        out.append(digit_str(v % 10));
        proof {
            assert(dec_rep((v / 10) as nat) == seq![digit_char((v / 10) as nat)]);
            assert(out@ =~= old(out)@ + dec_rep(v as nat));
        }
    } else {
        out.append(digit_str(v));
        proof {
            assert(out@ =~= old(out)@ + dec_rep(v as nat));
        }
    }
}

impl Addr {
    /// The dotted-decimal text of this address.
    pub fn to_text(&self) -> (s: String)
        ensures
            s@ == addr_text(*self),
    {
        let mut out = String::new();
        append_octet(&mut out, self.0[0]);
        out.append(".");
        append_octet(&mut out, self.0[1]);
        out.append(".");
        append_octet(&mut out, self.0[2]);
        out.append(".");
        append_octet(&mut out, self.0[3]);
        proof {
            reveal_strlit(".");
            assert(out@ =~= addr_text(*self));
        }
        out
    }
}

/// Splitting never yields an empty component list.
proof fn lemma_dot_parts_nonempty(s: Seq<char>)
    ensures
        dot_parts(s).len() >= 1,
    decreases s.len(),
{
    if s.len() != 0 {
        lemma_dot_parts_nonempty(s.drop_first());
    }
}

/// How one more character extends the split: a dot opens a new empty
/// component, any other character grows the last one.
proof fn lemma_dot_parts_push(s: Seq<char>, c: char)
    ensures
        c == '.' ==> dot_parts(s.push(c)) == dot_parts(s).push(Seq::<char>::empty()),
        c != '.' ==> dot_parts(s.push(c)) == dot_parts(s).update(
            dot_parts(s).len() - 1,
            dot_parts(s).last().push(c),
        ),
    decreases s.len(),
{
    lemma_dot_parts_nonempty(s);
    if s.len() == 0 {
        assert(s.push(c)[0] == c);
        assert(s.push(c).drop_first() =~= s);
        if c == '.' {
            assert(dot_parts(s.push(c)) =~~= dot_parts(s).push(Seq::<char>::empty()));
        } else {
            assert(seq![s.push(c)[0]] + dot_parts(s.push(c).drop_first())[0] =~= seq![c]);
            assert(dot_parts(s.push(c)) =~= dot_parts(s).update(
                dot_parts(s).len() - 1,
                dot_parts(s).last().push(c),
            ));
        }
    } else {
        lemma_dot_parts_nonempty(s.drop_first());
        lemma_dot_parts_push(s.drop_first(), c);
        assert(s.push(c).drop_first() =~= s.drop_first().push(c));
        assert(s.push(c)[0] == s[0]);
        if c == '.' {
            if s[0] == '.' {
                assert(dot_parts(s.push(c)) =~= dot_parts(s).push(Seq::<char>::empty()));
            } else {
                let rest = dot_parts(s.drop_first());
                let rest2 = dot_parts(s.drop_first().push(c));
                assert(rest2[0] == rest[0]);
                assert(rest2.drop_first() =~= rest.drop_first().push(Seq::<char>::empty()));
                assert(dot_parts(s.push(c)) =~= dot_parts(s).push(Seq::<char>::empty()));
            }
        } else {
            if s[0] == '.' {
                assert(dot_parts(s.push(c)) =~= dot_parts(s).update(
                    dot_parts(s).len() - 1,
                    dot_parts(s).last().push(c),
                ));
            } else {
                let rest = dot_parts(s.drop_first());
                let rest2 = dot_parts(s.drop_first().push(c));
                if rest.len() == 1 {
                    assert(rest2[0] == rest[0].push(c));
                    assert(rest2.drop_first() =~= rest.drop_first());
                    assert(dot_parts(s.push(c)) =~= dot_parts(s).update(
                        dot_parts(s).len() - 1,
                        dot_parts(s).last().push(c),
                    ));
                } else {
                    assert(rest2[0] == rest[0]);
                    assert(rest2.drop_first() =~= rest.drop_first().update(
                        rest.drop_first().len() - 1,
                        rest.drop_first().last().push(c),
                    ));
                    assert(dot_parts(s.push(c)) =~= dot_parts(s).update(
                        dot_parts(s).len() - 1,
                        dot_parts(s).last().push(c),
                    ));
                }
            }
        }
    }
}

/// One component of `s`, the characters `a..b`, read as an octet.
fn parse_octet(s: &str, a: usize, b: usize) -> (r: Result<u8, ParseAddrError>)
    requires
        a <= b <= s@.len(),
    ensures
        match r {
            Ok(v) => is_octet_text(s@.subrange(a as int, b as int)) && v == numeral_val(
                s@.subrange(a as int, b as int),
            ),
            Err(e) => !is_octet_text(s@.subrange(a as int, b as int)) && e
                == ParseAddrError::InvalidComponent,
        },
{
    let ghost t = s@.subrange(a as int, b as int);
    if a == b {
        return Err(ParseAddrError::InvalidComponent);
    }
    let mut acc: u32 = 0;
    let mut j: usize = a;
    while j < b
        invariant
            a <= j <= b <= s@.len(),
            t == s@.subrange(a as int, b as int),
            forall|i: int| 0 <= i < j - a ==> is_dec_digit(#[trigger] t[i]),
            acc == numeral_val(t.take(j - a)),
            acc <= 255,
        decreases b - j,
    {
        let c = s.get_char(j);
        let cv = c as u32;
        assert(c == t[j - a]);
        if cv < 48 || cv > 57 {
            assert(!is_dec_digit(t[j - a]));
            return Err(ParseAddrError::InvalidComponent);
        }
        proof {
            assert(t.take(j + 1 - a).drop_last() =~= t.take(j - a));
            assert(t.take(j + 1 - a).last() == t[j - a]);
        }
        acc = acc * 10 + (cv - 48);
        if acc > 255 {
            proof {
                if is_numeral(t) {
                    lemma_numeral_val_take_le(t, j + 1 - a);
                }
            }
            return Err(ParseAddrError::InvalidComponent);
        }
        j += 1;
    }
    proof {
        assert(t.take(b - a) =~= t);
    }
    Ok(acc as u8)
}

impl Addr {
    /// Parse a dotted-decimal address: four components separated by dots,
    /// each a decimal numeral in `[0, 255]`.
    pub fn from_str(s: &str) -> (r: Result<Addr, ParseAddrError>)
        ensures
            r == parse_result(s@),
    {
        let n = s.unicode_len();
        let ghost whole = s@;
        // Find where each component begins and ends.
        let mut bounds: Vec<(usize, usize)> = Vec::new();
        let mut start: usize = 0;
        let mut j: usize = 0;
        while j < n
            invariant
                start <= j <= n == s@.len(),
                dot_parts(s@.take(j as int)).len() == bounds@.len() + 1,
                forall|i: int|
                    0 <= i < bounds@.len() ==> (#[trigger] bounds@[i]).1 <= j
                        && bounds@[i].0 <= bounds@[i].1 && dot_parts(s@.take(j as int))[i]
                        == s@.subrange(bounds@[i].0 as int, bounds@[i].1 as int),
                dot_parts(s@.take(j as int)).last() == s@.subrange(start as int, j as int),
            decreases n - j,
        {
            let c = s.get_char(j);
            proof {
                assert(s@.take(j + 1) =~= s@.take(j as int).push(s@[j as int]));
                lemma_dot_parts_push(s@.take(j as int), s@[j as int]);
            }
            if c == '.' {
                bounds.push((start, j));
                start = j + 1;
                proof {
                    assert(s@.subrange(j + 1, j + 1) =~= Seq::<char>::empty());
                }
            } else {
                proof {
                    assert(s@.subrange(start as int, j as int).push(s@[j as int]) =~= s@.subrange(
                        start as int,
                        j + 1,
                    ));
                }
            }
            j += 1;
        }
        proof {
            assert(s@.take(n as int) =~= s@);
        }
        bounds.push((start, n));
        let ghost parts = dot_parts(s@);
        let nparts = bounds.len();
        // Read the first four components as octets, left to right.
        let mut octs: Vec<u8> = Vec::new();
        let mut k: usize = 0;
        while k < 4
            invariant
                k == octs@.len() <= 4,
                n == s@.len(),
                parts == dot_parts(s@),
                nparts == bounds@.len() == parts.len(),
                forall|i: int|
                    0 <= i < nparts ==> (#[trigger] bounds@[i]).1 <= n && bounds@[i].0
                        <= bounds@[i].1 && parts[i] == s@.subrange(
                        bounds@[i].0 as int,
                        bounds@[i].1 as int,
                    ),
                forall|i: int|
                    0 <= i < k ==> is_octet_text(#[trigger] parts[i]) && i < parts.len()
                        && octs@[i] == numeral_val(parts[i]),
            decreases 4 - k,
        {
            if k >= nparts {
                return Err(ParseAddrError::NotEnoughParts);
            }
            let (a, b) = (bounds[k].0, bounds[k].1);
            match parse_octet(s, a, b) {
                Ok(v) => {
                    octs.push(v);
                },
                Err(e) => {
                    assert(!is_octet_text(parts[k as int]) && octets_upto(parts, k as int));
                    return Err(ParseAddrError::InvalidComponent);
                },
            }
            k += 1;
        }
        if nparts > 4 {
            return Err(ParseAddrError::TooManyParts);
        }
        let r = Addr([octs[0], octs[1], octs[2], octs[3]]);
        proof {
            broadcast use vstd::array::group_array_axioms;

            assert(is_octet_text(parts[0]) && is_octet_text(parts[1]) && is_octet_text(parts[2])
                && is_octet_text(parts[3]));
            assert(parts.len() == 4);
            assert(r.0 =~= [
                numeral_val(parts[0]) as u8,
                numeral_val(parts[1]) as u8,
                numeral_val(parts[2]) as u8,
                numeral_val(parts[3]) as u8,
            ]);
        }
        Ok(r)
    }
}

impl core::str::FromStr for Addr {
    type Err = ParseAddrError;

    /// `"1.2.3.4".parse()`, as [`Addr::from_str`] has it.
    fn from_str(s: &str) -> Result<Addr, ParseAddrError> {
        Addr::from_str(s)
    }
}

/// A text without dots is one single component.
proof fn lemma_dot_parts_nodot(t: Seq<char>)
    requires
        forall|i: int| 0 <= i < t.len() ==> #[trigger] t[i] != '.',
    ensures
        dot_parts(t) == seq![t],
    decreases t.len(),
{
    if t.len() == 0 {
        assert(dot_parts(t) =~~= seq![t]);
    } else {
        lemma_dot_parts_nodot(t.drop_first());
        assert(seq![t[0]] + t.drop_first() =~= t);
        assert(dot_parts(t) =~~= seq![t]);
    }
}

/// The first dot separates the first component from the rest of the split.
proof fn lemma_dot_parts_split(t: Seq<char>, u: Seq<char>)
    requires
        forall|i: int| 0 <= i < t.len() ==> #[trigger] t[i] != '.',
    ensures
        dot_parts(t + seq!['.'] + u) == seq![t] + dot_parts(u),
    decreases t.len(),
{
    let s = t + seq!['.'] + u;
    if t.len() == 0 {
        assert(s[0] == '.');
        assert(s.drop_first() =~= u);
        assert(dot_parts(s) =~~= seq![t] + dot_parts(u));
    } else {
        assert(s[0] == t[0]);
        assert(s.drop_first() =~= t.drop_first() + seq!['.'] + u);
        lemma_dot_parts_split(t.drop_first(), u);
        let rest = dot_parts(s.drop_first());
        lemma_dot_parts_nonempty(u);
        assert(rest[0] == t.drop_first());
        assert(seq![s[0]] + rest[0] =~= t);
        assert(rest.drop_first() =~= dot_parts(u));
        assert(dot_parts(s) =~~= seq![t] + dot_parts(u));
    }
}

/// The components of `parts`, written out again with dots between them.
spec fn join_dots(parts: Seq<Seq<char>>) -> Seq<char>
    decreases parts.len(),
{
    if parts.len() == 0 {
        Seq::empty()
    } else if parts.len() == 1 {
        parts[0]
    } else {
        parts[0] + seq!['.'] + join_dots(parts.drop_first())
    }
}

/// Splitting at the dots and joining with dots puts the text back together.
proof fn lemma_join_dot_parts(s: Seq<char>)
    ensures
        join_dots(dot_parts(s)) == s,
    decreases s.len(),
{
    lemma_dot_parts_nonempty(s);
    if s.len() == 0 {
        assert(join_dots(dot_parts(s)) =~= s);
    } else if s[0] == '.' {
        lemma_join_dot_parts(s.drop_first());
        lemma_dot_parts_nonempty(s.drop_first());
        assert(dot_parts(s).drop_first() =~= dot_parts(s.drop_first()));
        assert(dot_parts(s)[0] == Seq::<char>::empty());
        assert(join_dots(dot_parts(s)) =~= s);
    } else {
        lemma_join_dot_parts(s.drop_first());
        let rest = dot_parts(s.drop_first());
        lemma_dot_parts_nonempty(s.drop_first());
        if rest.len() == 1 {
            assert(join_dots(rest) == rest[0]);
            assert(join_dots(dot_parts(s)) =~= s);
        } else {
            assert(dot_parts(s).drop_first() =~= rest.drop_first());
            assert(join_dots(rest) == rest[0] + seq!['.'] + join_dots(rest.drop_first()));
            assert(join_dots(dot_parts(s)) =~= seq![s[0]] + join_dots(rest));
            assert(join_dots(dot_parts(s)) =~= s);
        }
    }
}

/// Writing an address as dotted-decimal text and parsing that text yields
/// the address again, for every address.
pub proof fn lemma_text_round_trip(a: Addr)
    ensures
        parse_result(addr_text(a)) == Ok::<Addr, ParseAddrError>(a),
{
    broadcast use vstd::array::group_array_axioms;

    let d0 = dec_rep(a.0[0] as nat);
    let d1 = dec_rep(a.0[1] as nat);
    let d2 = dec_rep(a.0[2] as nat);
    let d3 = dec_rep(a.0[3] as nat);
    lemma_dec_rep_digits(a.0[0] as nat);
    lemma_dec_rep_digits(a.0[1] as nat);
    lemma_dec_rep_digits(a.0[2] as nat);
    lemma_dec_rep_digits(a.0[3] as nat);
    let s = addr_text(a);
    assert(s =~= d0 + seq!['.'] + (d1 + seq!['.'] + (d2 + seq!['.'] + d3)));
    lemma_dot_parts_split(d0, d1 + seq!['.'] + (d2 + seq!['.'] + d3));
    lemma_dot_parts_split(d1, d2 + seq!['.'] + d3);
    lemma_dot_parts_split(d2, d3);
    lemma_dot_parts_nodot(d3);
    let parts = dot_parts(s);
    assert(parts =~= seq![d0, d1, d2, d3]);
    assert(is_octet_text(parts[0]) && is_octet_text(parts[1]) && is_octet_text(parts[2])
        && is_octet_text(parts[3]));
    assert(parse_result(s) == Ok::<Addr, ParseAddrError>(
        Addr(
            [
                numeral_val(parts[0]) as u8,
                numeral_val(parts[1]) as u8,
                numeral_val(parts[2]) as u8,
                numeral_val(parts[3]) as u8,
            ],
        ),
    ));
    assert(a.0 =~= [
        numeral_val(parts[0]) as u8,
        numeral_val(parts[1]) as u8,
        numeral_val(parts[2]) as u8,
        numeral_val(parts[3]) as u8,
    ]);
}

/// Parsing a dotted-decimal text and writing the parsed address out again
/// yields the same text, provided no component carries a leading zero (a
/// component such as `07` parses but is written back as `7`).
pub proof fn lemma_parse_round_trip(s: Seq<char>, a: Addr)
    requires
        parse_result(s) == Ok::<Addr, ParseAddrError>(a),
        forall|i: int|
            0 <= i < dot_parts(s).len() ==> ((#[trigger] dot_parts(s)[i]).len() == 1
                || dot_parts(s)[i][0] != '0'),
    ensures
        addr_text(a) == s,
{
    broadcast use vstd::array::group_array_axioms;

    let parts = dot_parts(s);
    assert(parts.len() == 4);
    assert(is_octet_text(parts[0])) by {
        if !is_octet_text(parts[0]) {
            assert(octets_upto(parts, 0));
            assert(parse_result(s) is Err);
        }
    }
    assert(is_octet_text(parts[1])) by {
        if !is_octet_text(parts[1]) {
            assert(octets_upto(parts, 1));
            assert(parse_result(s) is Err);
        }
    }
    assert(is_octet_text(parts[2])) by {
        if !is_octet_text(parts[2]) {
            assert(octets_upto(parts, 2));
            assert(parse_result(s) is Err);
        }
    }
    assert(is_octet_text(parts[3])) by {
        if !is_octet_text(parts[3]) {
            assert(octets_upto(parts, 3));
            assert(parse_result(s) is Err);
        }
    }
    lemma_canonical_dec_rep(parts[0]);
    lemma_canonical_dec_rep(parts[1]);
    lemma_canonical_dec_rep(parts[2]);
    lemma_canonical_dec_rep(parts[3]);
    assert(a.0[0] as nat == numeral_val(parts[0]) && a.0[1] as nat == numeral_val(parts[1])
        && a.0[2] as nat == numeral_val(parts[2]) && a.0[3] as nat == numeral_val(parts[3]));
    lemma_join_dot_parts(s);
    let p1 = parts.drop_first();
    let p2 = p1.drop_first();
    let p3 = p2.drop_first();
    assert(join_dots(parts) == parts[0] + seq!['.'] + join_dots(p1));
    assert(join_dots(p1) == p1[0] + seq!['.'] + join_dots(p2));
    assert(join_dots(p2) == p2[0] + seq!['.'] + join_dots(p3));
    assert(p3.len() == 1 && join_dots(p3) == p3[0]);
    assert(addr_text(a) =~= s);
}

/// A numeral's value never shrinks as more digits are appended.
proof fn lemma_numeral_val_take_le(t: Seq<char>, m: int)
    requires
        0 <= m <= t.len(),
    ensures
        numeral_val(t.take(m)) <= numeral_val(t),
    decreases t.len(),
{
    if m == t.len() {
        assert(t.take(m) =~= t);
    } else {
        assert(t.drop_last().take(m) =~= t.take(m));
        lemma_numeral_val_take_le(t.drop_last(), m);
    }
}

} // verus!
