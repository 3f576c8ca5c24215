use vstd::prelude::*;
use vstd::string::{StrSliceExecFns, StringExecFns};

verus! {

/// The value of `c` as a digit in base `radix` (10 or 16, either case of
/// letter), or -1 when it is not one.
pub open spec fn digit_value(c: char, radix: int) -> int {
    if '0' <= c <= '9' {
        c as int - '0' as int
    } else if radix == 16 && 'a' <= c <= 'f' {
        c as int - 'a' as int + 10
    } else if radix == 16 && 'A' <= c <= 'F' {
        c as int - 'A' as int + 10
    } else {
        -1
    }
}

pub open spec fn all_digits(s: Seq<char>, radix: int) -> bool {
    forall|i: int| 0 <= i < s.len() ==> digit_value(#[trigger] s[i], radix) >= 0
}

pub open spec fn digits_value(s: Seq<char>, radix: int) -> int
    decreases s.len(),
{
    if s.len() == 0 {
        0
    } else {
        digits_value(s.drop_last(), radix) * radix + digit_value(s.last(), radix)
    }
}

/// The digits after an optional leading `+`.
pub open spec fn unsigned_body(s: Seq<char>) -> Seq<char> {
    if s.len() > 0 && s[0] == '+' {
        s.drop_first()
    } else {
        s
    }
}

/// An unsigned integer in base `radix` that is at most `max`: an optional
/// `+`, then one digit or more.
pub open spec fn parse_spec(s: Seq<char>, radix: int, max: int) -> Option<int> {
    let b = unsigned_body(s);
    if b.len() > 0 && all_digits(b, radix) && digits_value(b, radix) <= max {
        Some(digits_value(b, radix))
    } else {
        None
    }
}

proof fn lemma_digits_nonneg(s: Seq<char>, radix: int)
    requires
        radix == 10 || radix == 16,
        all_digits(s, radix),
    ensures
        digits_value(s, radix) >= 0,
    decreases s.len(),
{
    if s.len() > 0 {
        let d = s.drop_last();
        assert forall|j: int| 0 <= j < d.len() implies digit_value(#[trigger] d[j], radix) >= 0 by {
            assert(d[j] == s[j]);
        }
        lemma_digits_nonneg(d, radix);
        let v = digits_value(d, radix);
        assert(digit_value(s.last(), radix) >= 0);
        assert(v * radix >= 0) by (nonlinear_arith)
            requires
                v >= 0,
                radix >= 1,
        ;
    }
}

proof fn lemma_digits_grow(s: Seq<char>, radix: int, i: int)
    requires
        radix == 10 || radix == 16,
        all_digits(s, radix),
        0 <= i <= s.len(),
    ensures
        0 <= digits_value(s.subrange(0, i), radix) <= digits_value(s, radix),
    decreases s.len(),
{
    if i < s.len() {
        let d = s.drop_last();
        assert forall|j: int| 0 <= j < d.len() implies digit_value(#[trigger] d[j], radix) >= 0 by {
            assert(d[j] == s[j]);
        }
        lemma_digits_grow(d, radix, i);
        lemma_digits_grow(d, radix, d.len() as int);
        assert(d.subrange(0, i) =~= s.subrange(0, i));
        assert(d.subrange(0, d.len() as int) =~= d);
        let v = digits_value(d, radix);
        assert(digit_value(s.last(), radix) >= 0);
        assert(v * radix >= v) by (nonlinear_arith)
            requires
                v >= 0,
                radix >= 1,
        ;
    } else {
        assert(s.subrange(0, i) =~= s);
        lemma_digits_nonneg(s, radix);
    }
}

/// The characters of `s`.
pub fn chars_of(s: &str) -> (r: Vec<char>)
    ensures
        r@ == s@,
{
    let n = s.unicode_len();
    let mut r: Vec<char> = Vec::new();
    let mut i: usize = 0;
    while i < n
        invariant
            n == s@.len(),
            i <= n,
            r@ == s@.subrange(0, i as int),
        decreases n - i,
    {
        r.push(s.get_char(i));
        i = i + 1;
        assert(r@ =~= s@.subrange(0, i as int));
    }
    assert(r@ =~= s@);
    r
}

fn digit_of(c: char, radix: u32) -> (r: Option<u32>)
    requires
        radix == 10 || radix == 16,
    ensures
        r is None <==> digit_value(c, radix as int) < 0,
        r matches Some(d) ==> d == digit_value(c, radix as int) && d < radix,
{
    if '0' <= c && c <= '9' {
        Some((c as u32) - ('0' as u32))
    } else if radix == 16 && 'a' <= c && c <= 'f' {
        Some((c as u32) - ('a' as u32) + 10)
    } else if radix == 16 && 'A' <= c && c <= 'F' {
        Some((c as u32) - ('A' as u32) + 10)
    } else {
        None
    }
}

/// Parses `cs[from..to]` as an unsigned integer in base `radix` that is at
/// most `max`.
pub fn parse_unsigned(cs: &Vec<char>, from: usize, to: usize, radix: u32, max: u128) -> (r: Option<
    u128,
>)
    requires
        radix == 10 || radix == 16,
        from <= to <= cs@.len(),
        max >= 16,
    ensures
        r matches Some(v) ==> parse_spec(cs@.subrange(from as int, to as int), radix as int, max as int)
            == Some(v as int),
        r is None ==> parse_spec(cs@.subrange(from as int, to as int), radix as int, max as int)
            is None,
{
    let ghost s = cs@.subrange(from as int, to as int);
    let mut start = from;
    if from < to && cs[from] == '+' {
        start = from + 1;
    }
    let ghost b = cs@.subrange(start as int, to as int);
    assert(b == unsigned_body(s)) by {
        if from < to && cs@[from as int] == '+' {
            assert(b =~= s.drop_first());
        } else {
            assert(b =~= s);
        }
    }
    if start == to {
        return None;
    }
    let mut acc: u128 = 0;
    let mut i: usize = start;
    while i < to
        invariant
            from <= start <= i <= to <= cs@.len(),
            radix == 10 || radix == 16,
            b == cs@.subrange(start as int, to as int),
            b == unsigned_body(s),
            s == cs@.subrange(from as int, to as int),
            all_digits(cs@.subrange(start as int, i as int), radix as int),
            acc == digits_value(cs@.subrange(start as int, i as int), radix as int),
            acc <= max,
            max >= 16,
        decreases to - i,
    {
        let ghost pre = cs@.subrange(start as int, i as int);
        let ghost next = cs@.subrange(start as int, i + 1);
        assert(next.drop_last() =~= pre);
        match digit_of(cs[i], radix) {
            None => {
                assert(b[i - start] == cs@[i as int]);
                assert(digit_value(b[i - start], radix as int) < 0);
                assert(!all_digits(b, radix as int));
                return None;
            },
            Some(d) => {
                let dd = d as u128;
                let rr = radix as u128;
                let limit = (max - dd) / rr;
                let ghost x = (max - dd) as int;
                proof {
                    vstd::arithmetic::div_mod::lemma_fundamental_div_mod(x, rr as int);
                }
                if acc > limit {
                    proof {
                        let a = acc as int;
                        let l = limit as int;
                        let q = rr as int;
                        assert(a * q + dd > max) by (nonlinear_arith)
                            requires
                                a >= l + 1,
                                x == q * l + x % q,
                                x % q < q,
                                q > 0,
                                x == max - dd,
                        ;
                        assert(digits_value(next, radix as int) > max);
                        if all_digits(b, radix as int) {
                            assert(next =~= b.subrange(0, i + 1 - start));
                            lemma_digits_grow(b, radix as int, i + 1 - start);
                        }
                    }
                    return None;
                }
                proof {
                    let a = acc as int;
                    let l = limit as int;
                    let q = rr as int;
                    assert(a * q + dd <= max) by (nonlinear_arith)
                        requires
                            a <= l,
                            a >= 0,
                            x == q * l + x % q,
                            x % q >= 0,
                            q > 0,
                            x == max - dd,
                    ;
                }
                acc = acc * rr + dd;
                assert forall|j: int| 0 <= j < next.len() implies digit_value(
                    #[trigger] next[j],
                    radix as int,
                ) >= 0 by {
                    if j < pre.len() {
                        assert(next[j] == pre[j]);
                    }
                }
            },
        }
        i = i + 1;
    }
    assert(cs@.subrange(start as int, to as int) =~= b);
    Some(acc)
}

/// A message cursor: a decimal number that fits in `u32`.
pub fn parse_cursor(s: &str) -> (r: Option<u32>)
    ensures
        r matches Some(v) ==> parse_spec(s@, 10, u32::MAX as int) == Some(v as int),
        r is None ==> parse_spec(s@, 10, u32::MAX as int) is None,
{
    let cs = chars_of(s);
    assert(cs@.subrange(0, cs@.len() as int) =~= s@);
    match parse_unsigned(&cs, 0, cs.len(), 10, u32::MAX as u128) {
        Some(v) => Some(v as u32),
        None => None,
    }
}

/// An instance id: a hexadecimal number that fits in `u128`.
pub fn parse_id(s: &str) -> (r: Option<u128>)
    ensures
        r matches Some(v) ==> parse_spec(s@, 16, u128::MAX as int) == Some(v as int),
        r is None ==> parse_spec(s@, 16, u128::MAX as int) is None,
{
    let cs = chars_of(s);
    assert(cs@.subrange(0, cs@.len() as int) =~= s@);
    parse_unsigned(&cs, 0, cs.len(), 16, u128::MAX)
}

/// `s` cut at every comma; an empty string is one empty piece.
pub open spec fn comma_pieces(s: Seq<char>) -> Seq<Seq<char>>
    decreases s.len(),
{
    if s.len() == 0 {
        seq![Seq::empty()]
    } else {
        let rest = comma_pieces(s.drop_last());
        if s.last() == ',' {
            rest.push(Seq::empty())
        } else {
            rest.update(rest.len() - 1, rest.last().push(s.last()))
        }
    }
}

/// Each piece parsed as an id, or `None` when one of them is not one.
pub open spec fn parse_ids_spec(pieces: Seq<Seq<char>>) -> Option<Seq<u128>>
    decreases pieces.len(),
{
    if pieces.len() == 0 {
        Some(Seq::empty())
    } else {
        match (parse_ids_spec(pieces.drop_last()), parse_spec(pieces.last(), 16, u128::MAX as int)) {
            (Some(ids), Some(v)) => Some(ids.push(v as u128)),
            _ => None,
        }
    }
}

/// A comma-separated list of instance ids.
pub fn parse_id_list(s: &str) -> (r: Option<Vec<u128>>)
    ensures
        r matches Some(ids) ==> parse_ids_spec(comma_pieces(s@)) == Some(ids@),
        r is None ==> parse_ids_spec(comma_pieces(s@)) is None,
{
    let cs = chars_of(s);
    let mut out: Vec<u128> = Vec::new();
    let mut start: usize = 0;
    let mut i: usize = 0;
    let ghost mut done: Seq<Seq<char>> = Seq::empty();
    assert(cs@.subrange(0, 0) =~= Seq::<char>::empty());
    assert(comma_pieces(cs@.subrange(0, 0)) =~= done.push(cs@.subrange(0, 0)));
    while i < cs.len()
        invariant
            cs@ == s@,
            start <= i <= cs@.len(),
            comma_pieces(cs@.subrange(0, i as int)) == done.push(cs@.subrange(start as int, i as int)),
            parse_ids_spec(done) == Some(out@),
        decreases cs@.len() - i,
    {
        let ghost pre = cs@.subrange(0, i as int);
        let ghost next = cs@.subrange(0, i + 1);
        assert(next.drop_last() =~= pre);
        if cs[i] == ',' {
            let piece = parse_unsigned(&cs, start, i, 16, u128::MAX);
            let ghost seg = cs@.subrange(start as int, i as int);
            match piece {
                Some(v) => {
                    out.push(v);
                    proof {
                        assert(done.push(seg).drop_last() =~= done);
                        done = done.push(seg);
                        assert(cs@.subrange(i + 1, i + 1) =~= Seq::<char>::empty());
                    }
                    start = i + 1;
                },
                None => {
                    proof {
                        let all = cs@;
                        lemma_pieces_prefix_fails(all, done, seg, i as int);
                    }
                    return None;
                },
            }
        } else {
            proof {
                assert(cs@.subrange(start as int, i + 1) =~= cs@.subrange(start as int, i as int).push(
                    cs@[i as int],
                ));
            }
        }
        i = i + 1;
    }
    assert(cs@.subrange(0, cs@.len() as int) =~= s@);
    let ghost last = cs@.subrange(start as int, cs@.len() as int);
    assert(done.push(last).drop_last() =~= done);
    match parse_unsigned(&cs, start, cs.len(), 16, u128::MAX) {
        Some(v) => {
            out.push(v);
            Some(out)
        },
        None => None,
    }
}

/// Once a finished piece fails to parse, the whole list fails, whatever
/// follows it.
proof fn lemma_pieces_prefix_fails(all: Seq<char>, done: Seq<Seq<char>>, seg: Seq<char>, i: int)
    requires
        0 <= i < all.len(),
        all[i] == ',',
        comma_pieces(all.subrange(0, i)) == done.push(seg),
        parse_spec(seg, 16, u128::MAX as int) is None,
    ensures
        parse_ids_spec(comma_pieces(all)) is None,
{
    let failed = done.push(seg);
    assert(failed.drop_last() =~= done);
    assert(parse_ids_spec(failed) is None);
    lemma_pieces_extend(all, i + 1, failed);
}

proof fn lemma_pieces_extend(all: Seq<char>, n: int, failed: Seq<Seq<char>>)
    requires
        0 < n <= all.len(),
        all[n - 1] == ',',
        comma_pieces(all.subrange(0, n - 1)) == failed,
        parse_ids_spec(failed) is None,
    ensures
        parse_ids_spec(comma_pieces(all)) is None,
    decreases all.len() - n,
{
    lemma_fail_grows(all, n, all.len() as int, failed);
    assert(all.subrange(0, all.len() as int) =~= all);
}

/// Every list of pieces from `n` characters on keeps the failed pieces
/// before its last piece.
proof fn lemma_fail_grows(all: Seq<char>, n: int, m: int, failed: Seq<Seq<char>>)
    requires
        0 < n <= m <= all.len(),
        all[n - 1] == ',',
        comma_pieces(all.subrange(0, n - 1)) == failed,
        parse_ids_spec(failed) is None,
    ensures
        comma_pieces(all.subrange(0, m)).len() > failed.len(),
        comma_pieces(all.subrange(0, m)).subrange(0, failed.len() as int) == failed,
        parse_ids_spec(comma_pieces(all.subrange(0, m))) is None,
    decreases m - n,
{
    let p = comma_pieces(all.subrange(0, m));
    if m == n {
        assert(all.subrange(0, m).drop_last() =~= all.subrange(0, n - 1));
        assert(p == failed.push(Seq::empty()));
        assert(p.subrange(0, failed.len() as int) =~= failed);
        assert(p.drop_last() =~= failed);
    } else {
        lemma_fail_grows(all, n, m - 1, failed);
        let q = comma_pieces(all.subrange(0, m - 1));
        assert(all.subrange(0, m).drop_last() =~= all.subrange(0, m - 1));
        if all[m - 1] == ',' {
            assert(p == q.push(Seq::empty()));
            assert(p.subrange(0, failed.len() as int) =~= failed);
            assert(p.drop_last() =~= q);
        } else {
            assert(p == q.update(q.len() - 1, q.last().push(all[m - 1])));
            assert(p.subrange(0, failed.len() as int) =~= failed);
            lemma_prefix_fail(p, failed);
        }
    }
}

proof fn lemma_prefix_fail(p: Seq<Seq<char>>, failed: Seq<Seq<char>>)
    requires
        p.len() > failed.len(),
        p.subrange(0, failed.len() as int) == failed,
        parse_ids_spec(failed) is None,
    ensures
        parse_ids_spec(p) is None,
    decreases p.len(),
{
    if p.len() - 1 == failed.len() {
        assert(p.drop_last() =~= failed);
    } else {
        assert(p.drop_last().subrange(0, failed.len() as int) =~= failed);
        lemma_prefix_fail(p.drop_last(), failed);
    }
}

/// `s` begins with `prefix`.
pub fn starts_with(s: &Vec<char>, prefix: &str) -> (r: bool)
    ensures
        r == (prefix@.len() <= s@.len() && s@.subrange(0, prefix@.len() as int) == prefix@),
{
    let p = chars_of(prefix);
    if p.len() > s.len() {
        return false;
    }
    let mut i: usize = 0;
    while i < p.len()
        invariant
            p@ == prefix@,
            p@.len() <= s@.len(),
            i <= p@.len(),
            forall|j: int| 0 <= j < i ==> s@[j] == p@[j],
        decreases p@.len() - i,
    {
        if s[i] != p[i] {
            assert(s@.subrange(0, p@.len() as int)[i as int] != p@[i as int]);
            return false;
        }
        i = i + 1;
    }
    assert(s@.subrange(0, p@.len() as int) =~= p@);
    true
}

/// The characters of `s` from position `from` on.
pub fn rest_of(s: &str, from: usize) -> (r: String)
    requires
        from <= s@.len(),
    ensures
        r@ == s@.subrange(from as int, s@.len() as int),
{
    let n = s.unicode_len();
    <String as StringExecFns>::from_str(s.substring_char(from, n))
}

/// `s` holds exactly the characters of `lit`.
pub fn equals(s: &Vec<char>, lit: &str) -> (r: bool)
    ensures
        r == (s@ == lit@),
{
    let same_start = starts_with(s, lit);
    let n = lit.unicode_len();
    if same_start && n == s.len() {
        assert(s@.subrange(0, n as int) =~= s@);
        true
    } else {
        assert(s@.subrange(0, s@.len() as int) =~= s@);
        false
    }
}

/// A path whose last `/`-separated component is a file name with the
/// extension `lua`: it ends in `.lua` after at least one character that is
/// not `/`.
pub open spec fn is_lua_path(p: Seq<char>) -> bool {
    &&& p.len() > 4
    &&& p.subrange(p.len() - 4, p.len() as int) == seq!['.', 'l', 'u', 'a']
    &&& p[p.len() - 5] != '/'
}

pub fn has_lua_extension(p: &String) -> (r: bool)
    ensures
        r == is_lua_path(p@),
{
    let cs = chars_of(p.as_str());
    let n = cs.len();
    if n <= 4 {
        return false;
    }
    let r = cs[n - 4] == '.' && cs[n - 3] == 'l' && cs[n - 2] == 'u' && cs[n - 1] == 'a' && cs[n
        - 5] != '/';
    proof {
        let tail = cs@.subrange(n - 4, n as int);
        if r {
            assert(tail =~= seq!['.', 'l', 'u', 'a']);
        } else if tail == seq!['.', 'l', 'u', 'a'] {
            assert(tail[0] == cs@[n - 4]);
            assert(tail[1] == cs@[n - 3]);
            assert(tail[2] == cs@[n - 2]);
            assert(tail[3] == cs@[n - 1]);
        }
    }
    r
}

} // verus!
