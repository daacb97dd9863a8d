//! Release versions: reading `major.minor.patch` and deciding whether a
//! published release is newer than the running one.

use vstd::prelude::*;
use crate::text::{chars_of, decimal, digit_char, lemma_decimal_len, push_chars_from};

verus! {

broadcast use vstd::seq_lib::group_seq_properties;

/// Whether `c` is an ASCII decimal digit.
pub open spec fn is_digit(c: char) -> bool {
    '0' <= c <= '9'
}

/// The value of a digit character.
pub open spec fn digit_value(c: char) -> nat {
    ((c as u32) - 48) as nat
}

/// Whether every character of `ds` is a digit.
pub open spec fn all_digits(ds: Seq<char>) -> bool {
    forall|i: int| 0 <= i < ds.len() ==> is_digit(#[trigger] ds[i])
}

/// The number that a sequence of digits denotes (zero when empty).
pub open spec fn digits_value(ds: Seq<char>) -> nat
    decreases ds.len(),
{
    if ds.len() == 0 {
        0
    } else {
        digits_value(ds.drop_last()) * 10 + digit_value(ds.last())
    }
}

/// The text `s` read as a `u32` in the way of `str::parse::<u32>`: an
/// optional `+`, then one or more ASCII digits whose value fits in 32 bits.
pub open spec fn parse_u32_spec(s: Seq<char>) -> Option<u32> {
    let ds = if s.len() > 0 && s[0] == '+' {
        s.drop_first()
    } else {
        s
    };
    if ds.len() == 0 || !all_digits(ds) {
        None
    } else if digits_value(ds) > u32::MAX {
        None
    } else {
        Some(digits_value(ds) as u32)
    }
}

/// The pieces of `s` between dots, in the way of `str::split('.')`: a text
/// without dots is one piece, and the empty text is one empty piece.
pub open spec fn split_dots(s: Seq<char>) -> Seq<Seq<char>>
    decreases s.len(),
{
    if s.len() == 0 {
        seq![Seq::empty()]
    } else {
        let before = split_dots(s.drop_last());
        if s.last() == '.' {
            before.push(Seq::empty())
        } else {
            before.update(before.len() - 1, before.last().push(s.last()))
        }
    }
}

/// The numbers among the pieces of a version, in order; pieces that are
/// not numbers are left out.
pub open spec fn version_numbers(s: Seq<char>) -> Seq<u32> {
    split_dots(s).filter_map(|p: Seq<char>| parse_u32_spec(p))
}

/// The `i`-th number of a version, zero when there is none.
pub open spec fn nth_or_zero(ns: Seq<u32>, i: int) -> u32 {
    if i < ns.len() {
        ns[i]
    } else {
        0
    }
}

/// A version read as (major, minor, patch).
pub open spec fn semver_spec(s: Seq<char>) -> (u32, u32, u32) {
    let ns = version_numbers(s);
    (nth_or_zero(ns, 0), nth_or_zero(ns, 1), nth_or_zero(ns, 2))
}

/// The order of versions: by major, then minor, then patch.
pub open spec fn version_gt(a: (u32, u32, u32), b: (u32, u32, u32)) -> bool {
    a.0 > b.0 || (a.0 == b.0 && (a.1 > b.1 || (a.1 == b.1 && a.2 > b.2)))
}

proof fn lemma_split_dots_nonempty(s: Seq<char>)
    ensures
        split_dots(s).len() >= 1,
    decreases s.len(),
{
    if s.len() > 0 {
        lemma_split_dots_nonempty(s.drop_last());
    }
}

proof fn lemma_digits_value_grows(ds: Seq<char>, i: int)
    requires
        0 <= i <= ds.len(),
    ensures
        digits_value(ds.take(i)) <= digits_value(ds),
    decreases ds.len() - i,
{
    if i < ds.len() {
        lemma_digits_value_grows(ds, i + 1);
        assert(ds.take(i + 1).drop_last() == ds.take(i));
    } else {
        assert(ds.take(i) == ds);
    }
}

/// Reads a piece of a version as a `u32`, as `str::parse::<u32>` does.
pub fn parse_u32(cs: &Vec<char>) -> (r: Option<u32>)
    ensures
        r == parse_u32_spec(cs@),
{
    let n = cs.len();
    let start: usize = if n > 0 && cs[0] == '+' {
        1
    } else {
        0
    };
    let ghost ds = if n > 0 && cs@[0] == '+' {
        cs@.drop_first()
    } else {
        cs@
    };
    assert(ds == cs@.subrange(start as int, n as int));
    if start == n {
        return None;
    }
    let mut acc: u64 = 0;
    let mut i: usize = start;
    while i < n
        invariant
            start <= i <= n,
            n == cs@.len(),
            ds == cs@.subrange(start as int, n as int),
            ds == (if n > 0 && cs@[0] == '+' {
                cs@.drop_first()
            } else {
                cs@
            }),
            ds.len() > 0,
            acc <= u32::MAX,
            acc == digits_value(ds.take(i - start)),
            forall|j: int| 0 <= j < i - start ==> is_digit(#[trigger] ds[j]),
        decreases n - i,
    {
        let c = cs[i];
        assert(ds[i - start] == c);
        if !('0' <= c && c <= '9') {
            assert(!is_digit(ds[i - start]));
            assert(!all_digits(ds));
            return None;
        }
        let d: u64 = (c as u32 - 48) as u64;
        proof {
            assert(ds.take(i - start + 1).drop_last() == ds.take(i - start));
            assert(ds.take(i - start + 1).last() == c);
        }
        acc = acc * 10 + d;
        if acc > u32::MAX as u64 {
            proof {
                assert(digits_value(ds.take(i - start + 1)) == acc);
                lemma_digits_value_grows(ds, i - start + 1);
                assert(digits_value(ds) > u32::MAX);
            }
            return None;
        }
        i = i + 1;
    }
    assert(ds.take(n - start) == ds);
    Some(acc as u32)
}

/// Reads a version as (major, minor, patch): the first three pieces between
/// dots that are numbers; missing parts are zero.
pub fn parse_semver(v: &str) -> (r: (u32, u32, u32))
    ensures
        r == semver_spec(v@),
{
    let cs = chars_of(v);
    let ghost s = v@;
    let mut nums: Vec<u32> = Vec::new();
    let mut cur: Vec<char> = Vec::new();
    let mut i: usize = 0;
    proof {
        assert(s.take(0) =~= Seq::<char>::empty());
        assert(split_dots(s.take(0)).drop_last() =~= Seq::<Seq<char>>::empty());
        reveal(Seq::filter_map);
    }
    while i < cs.len()
        invariant
            cs@ == s,
            i <= s.len(),
            split_dots(s.take(i as int)).len() >= 1,
            cur@ == split_dots(s.take(i as int)).last(),
            nums@ == split_dots(s.take(i as int)).drop_last().filter_map(
                |p: Seq<char>| parse_u32_spec(p),
            ),
        decreases s.len() - i,
    {
        let c = cs[i];
        let ghost pre = s.take(i as int);
        let ghost post = s.take(i + 1);
        proof {
            assert(post.drop_last() == pre);
            assert(post.last() == c);
            lemma_split_dots_nonempty(pre);
        }
        if c == '.' {
            let piece = parse_u32(&cur);
            proof {
                let ps = split_dots(pre);
                assert(split_dots(post) == ps.push(Seq::empty()));
                assert(split_dots(post).drop_last() == ps);
                assert(ps == ps.drop_last().push(ps.last()));
                reveal(Seq::filter_map);
                assert(ps.push(Seq::<char>::empty()).last() == Seq::<char>::empty());
            }
            match piece {
                Some(x) => {
                    nums.push(x);
                },
                None => {},
            }
            cur = Vec::new();
            proof {
                let ps = split_dots(pre);
                let f = |p: Seq<char>| parse_u32_spec(p);
                assert(ps.drop_last().push(ps.last()).drop_last() == ps.drop_last());
                assert(ps.filter_map(f) == ps.drop_last().filter_map(f) + match f(ps.last()) {
                    Some(y) => seq![y],
                    None => Seq::empty(),
                });
                assert(cur@ =~= split_dots(post).last());
            }
        } else {
            cur.push(c);
            proof {
                let ps = split_dots(pre);
                assert(split_dots(post) == ps.update(ps.len() - 1, ps.last().push(c)));
                assert(split_dots(post).drop_last() =~= ps.drop_last());
            }
        }
        i = i + 1;
    }
    let last = parse_u32(&cur);
    match last {
        Some(x) => {
            nums.push(x);
        },
        None => {},
    }
    proof {
        assert(s.take(s.len() as int) == s);
        let ps = split_dots(s);
        let f = |p: Seq<char>| parse_u32_spec(p);
        reveal(Seq::filter_map);
        assert(ps == ps.drop_last().push(ps.last()));
        assert(ps.drop_last().push(ps.last()).drop_last() == ps.drop_last());
        assert(nums@ == version_numbers(s));
    }
    let major = if nums.len() > 0 {
        nums[0]
    } else {
        0
    };
    let minor = if nums.len() > 1 {
        nums[1]
    } else {
        0
    };
    let patch = if nums.len() > 2 {
        nums[2]
    } else {
        0
    };
    (major, minor, patch)
}

/// Whether the version `latest` is newer than `current`.
pub fn is_newer(latest: &str, current: &str) -> (r: bool)
    ensures
        r == version_gt(semver_spec(latest@), semver_spec(current@)),
{
    let a = parse_semver(latest);
    let b = parse_semver(current);
    a.0 > b.0 || (a.0 == b.0 && (a.1 > b.1 || (a.1 == b.1 && a.2 > b.2)))
}


/// `s` without its leading `v` characters.
pub open spec fn strip_v(s: Seq<char>) -> Seq<char>
    decreases s.len(),
{
    if s.len() > 0 && s[0] == 'v' {
        strip_v(s.drop_first())
    } else {
        s
    }
}

proof fn lemma_strip_v_skip(s: Seq<char>, k: int)
    requires
        0 <= k <= s.len(),
        forall|j: int| 0 <= j < k ==> s[j] == 'v',
        k == s.len() || s[k] != 'v',
    ensures
        strip_v(s) == s.skip(k),
    decreases k,
{
    if k > 0 {
        lemma_strip_v_skip(s.drop_first(), k - 1);
        assert(s.drop_first().skip(k - 1) == s.skip(k));
    } else {
        assert(s.skip(0) == s);
    }
}

/// A release tag without its leading `v` characters (`"v0.2.0"` becomes
/// `"0.2.0"`).
pub fn trim_v(tag: &str) -> (r: String)
    ensures
        r@ == strip_v(tag@),
{
    let cs = chars_of(tag);
    let mut k: usize = 0;
    while k < cs.len() && cs[k] == 'v'
        invariant
            cs@ == tag@,
            k <= cs@.len(),
            forall|j: int| 0 <= j < k ==> cs@[j] == 'v',
        decreases cs@.len() - k,
    {
        k = k + 1;
    }
    proof {
        lemma_strip_v_skip(tag@, k as int);
    }
    let mut r = String::new();
    push_chars_from(&mut r, &cs, k);
    assert(r@ =~= strip_v(tag@));
    r
}

/// The version of a published release, without its leading `v`, when it is
/// newer than `current`; `None` when it is not.
pub fn newer_release(tag: &str, current: &str) -> (r: Option<String>)
    ensures
        match r {
            Some(v) => v@ == strip_v(tag@) && version_gt(semver_spec(strip_v(tag@)), semver_spec(current@)),
            None => !version_gt(semver_spec(strip_v(tag@)), semver_spec(current@)),
        },
{
    let latest = trim_v(tag);
    if is_newer(latest.as_str(), current) {
        Some(latest)
    } else {
        None
    }
}


/// No version is newer than itself.
pub proof fn law_newer_irreflexive(v: Seq<char>)
    ensures
        !version_gt(semver_spec(v), semver_spec(v)),
{
}

/// Of two versions, at most one is newer than the other.
pub proof fn law_newer_asymmetric(a: Seq<char>, b: Seq<char>)
    ensures
        version_gt(semver_spec(a), semver_spec(b)) ==> !version_gt(semver_spec(b), semver_spec(a)),
{
}

/// A version newer than one newer than a third is newer than the third.
pub proof fn law_newer_transitive(a: Seq<char>, b: Seq<char>, c: Seq<char>)
    ensures
        version_gt(semver_spec(a), semver_spec(b)) && version_gt(semver_spec(b), semver_spec(c))
            ==> version_gt(semver_spec(a), semver_spec(c)),
{
}


proof fn lemma_decimal_digits(n: nat)
    ensures
        all_digits(decimal(n)),
        digits_value(decimal(n)) == n,
        decimal(n).len() >= 1,
        decimal(n)[0] != '+',
        !decimal(n).contains('.'),
    decreases n,
{
    lemma_decimal_len(n);
    let last = (n % 10) as int;
    assert(digit_value(digit_char(last)) == last);
    if n < 10 {
        assert(decimal(n).drop_last() =~= Seq::<char>::empty());
        assert(decimal(n).last() == digit_char(last));
        assert(digits_value(decimal(n)) == digits_value(decimal(n).drop_last()) * 10 + digit_value(decimal(n).last()));
    }
    if n >= 10 {
        lemma_decimal_digits(n / 10);
        let d = decimal(n / 10);
        assert(decimal(n) == d.push(digit_char((n % 10) as int)));
        assert(decimal(n).drop_last() == d);
        assert(decimal(n).last() == digit_char(last));
        assert(digits_value(decimal(n)) == digits_value(d) * 10 + digit_value(digit_char(last)));
        assert(decimal(n)[0] == d[0]);
        assert forall|i: int| 0 <= i < decimal(n).len() implies is_digit(#[trigger] decimal(n)[i]) by {
            if i < d.len() {
                assert(decimal(n)[i] == d[i]);
            }
        }
        if decimal(n).contains('.') {
            let i = choose|i: int| 0 <= i < decimal(n).len() && decimal(n)[i] == '.';
            if i < d.len() {
                assert(d[i] == '.');
            }
        }
    }
}

proof fn lemma_parse_decimal(n: u32)
    ensures
        parse_u32_spec(decimal(n as nat)) == Some(n),
{
    lemma_decimal_digits(n as nat);
}

proof fn lemma_split_no_dot(t: Seq<char>)
    requires
        !t.contains('.'),
    ensures
        split_dots(t) == seq![t],
    decreases t.len(),
{
    if t.len() > 0 {
        let d = t.drop_last();
        assert(!d.contains('.')) by {
            if d.contains('.') {
                let i = choose|i: int| 0 <= i < d.len() && d[i] == '.';
                assert(t[i] == '.');
            }
        }
        lemma_split_no_dot(d);
        assert(t.last() != '.');
        assert(d.push(t.last()) == t);
    } else {
        assert(t == Seq::<char>::empty());
    }
}

proof fn lemma_split_append(s: Seq<char>, t: Seq<char>)
    requires
        !t.contains('.'),
    ensures
        split_dots(s + seq!['.'] + t) == split_dots(s).push(t),
    decreases t.len(),
{
    if t.len() == 0 {
        assert(s + seq!['.'] + t == s.push('.'));
        assert((s.push('.')).drop_last() == s);
        assert(split_dots(s.push('.')) == split_dots(s).push(Seq::empty()));
        assert(t == Seq::<char>::empty());
    } else {
        let d = t.drop_last();
        assert(!d.contains('.')) by {
            if d.contains('.') {
                let i = choose|i: int| 0 <= i < d.len() && d[i] == '.';
                assert(t[i] == '.');
            }
        }
        lemma_split_append(s, d);
        let whole = s + seq!['.'] + t;
        assert(whole.drop_last() == s + seq!['.'] + d);
        assert(whole.last() == t.last());
        assert(t.last() != '.');
        let prev = split_dots(s).push(d);
        assert(d.push(t.last()) == t);
        assert(prev.update(prev.len() - 1, prev.last().push(t.last())) =~= split_dots(s).push(t));
    }
}

/// A version written as `major.minor.patch` reads back as those three
/// numbers.
pub proof fn law_semver_roundtrip(major: u32, minor: u32, patch: u32)
    ensures
        semver_spec(
            decimal(major as nat) + seq!['.'] + decimal(minor as nat) + seq!['.'] + decimal(
                patch as nat,
            ),
        ) == (major, minor, patch),
{
    let a = decimal(major as nat);
    let b = decimal(minor as nat);
    let c = decimal(patch as nat);
    lemma_decimal_digits(major as nat);
    lemma_decimal_digits(minor as nat);
    lemma_decimal_digits(patch as nat);
    lemma_parse_decimal(major);
    lemma_parse_decimal(minor);
    lemma_parse_decimal(patch);
    lemma_split_no_dot(a);
    lemma_split_append(a, b);
    lemma_split_append(a + seq!['.'] + b, c);
    let pieces = split_dots(a + seq!['.'] + b + seq!['.'] + c);
    assert(pieces == seq![a, b, c]);
    let f = |p: Seq<char>| parse_u32_spec(p);
    reveal(Seq::filter_map);
    assert(seq![a, b, c].drop_last() == seq![a, b]);
    assert(seq![a, b].drop_last() == seq![a]);
    assert(seq![a].drop_last() == Seq::<Seq<char>>::empty());
    assert(seq![a].filter_map(f) == Seq::<Seq<char>>::empty().filter_map(f) + seq![major]);
    assert(seq![a].filter_map(f) =~= seq![major]);
    assert(seq![a, b].filter_map(f) =~= seq![major, minor]);
    assert(seq![a, b, c].filter_map(f) =~= seq![major, minor, patch]);
}

} // verus!
