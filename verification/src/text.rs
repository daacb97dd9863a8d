//! Text building blocks: decimal rendering of integers, thousands
//! separators, padding and character-wise comparison.

use vstd::prelude::*;

verus! {

/// `String::push` appends one character.
pub assume_specification[ String::push ](s: &mut String, ch: char)
    ensures
        final(s)@ == old(s)@.push(ch),
;

/// The characters of an optional text.
pub open spec fn opt_view(o: Option<&str>) -> Option<Seq<char>> {
    match o {
        Some(s) => Some(s@),
        None => None,
    }
}

/// The character of a decimal digit.
pub open spec fn digit_char(d: int) -> char
    recommends
        0 <= d < 10,
{
    ((d + 48) as u32) as char
}

/// The decimal representation of `n`, most significant digit first,
/// without leading zeros (`0` is written `"0"`).
pub open spec fn decimal(n: nat) -> Seq<char>
    decreases n,
{
    if n < 10 {
        seq![digit_char(n as int)]
    } else {
        decimal(n / 10).push(digit_char((n % 10) as int))
    }
}

/// The character of the digit `d` (below ten).
pub fn digit(d: u64) -> (c: char)
    requires
        d < 10,
    ensures
        c == digit_char(d as int),
{
    let b: u8 = d as u8 + 48;
    b as char
}

/// Appends the decimal representation of `n` to `s`.
pub fn push_decimal(s: &mut String, n: u64)
    ensures
        final(s)@ == old(s)@ + decimal(n as nat),
    decreases n,
{
    if n >= 10 {
        push_decimal(s, n / 10);
    }
    s.push(digit(n % 10));
    proof {
        assert(old(s)@ + decimal(n as nat) == old(s)@ + (if n >= 10 { decimal((n / 10) as nat) } else { seq![] }).push(digit_char((n % 10) as int)));
    }
}


/// The length of a decimal representation: at most three digits exactly
/// below a thousand.
pub proof fn lemma_decimal_len(n: nat)
    ensures
        decimal(n).len() >= 1,
        n < 10 ==> decimal(n).len() == 1,
        n < 100 ==> decimal(n).len() <= 2,
        n < 1000 ==> decimal(n).len() <= 3,
        n >= 10 ==> decimal(n).len() >= 2,
        n >= 100 ==> decimal(n).len() >= 3,
        n >= 1000 ==> decimal(n).len() >= 4,
    decreases n,
{
    if n >= 10 {
        lemma_decimal_len(n / 10);
    }
}

/// The last three digits of a number of at least a thousand.
pub proof fn lemma_decimal_split_thousand(n: nat)
    requires
        n >= 1000,
    ensures
        decimal(n) == decimal(n / 1000) + seq![
            digit_char(((n % 1000) / 100) as int),
            digit_char(((n % 1000) / 10 % 10) as int),
            digit_char((n % 10) as int),
        ],
{
    let a = n / 10;
    let b = n / 100;
    let c = n / 1000;
    assert(a / 10 == b);
    assert(b / 10 == c);
    assert(a % 10 == (n % 1000) / 10 % 10);
    assert(b % 10 == (n % 1000) / 100);
    assert(decimal(n) == decimal(a).push(digit_char((n % 10) as int)));
    assert(decimal(a) == decimal(b).push(digit_char((a % 10) as int)));
    assert(decimal(b) == decimal(c).push(digit_char((b % 10) as int)));
}

/// Digits grouped by three from the right, the groups separated by commas.
pub open spec fn group_thousands(ds: Seq<char>) -> Seq<char>
    decreases ds.len(),
{
    if ds.len() <= 3 {
        ds
    } else {
        group_thousands(ds.subrange(0, ds.len() - 3)) + seq![','] + ds.subrange(
            ds.len() - 3,
            ds.len() as int,
        )
    }
}

/// Appends `n` in decimal with a comma between each group of three digits.
pub fn push_grouped(s: &mut String, n: u64)
    ensures
        final(s)@ == old(s)@ + group_thousands(decimal(n as nat)),
    decreases n,
{
    proof {
        lemma_decimal_len(n as nat);
    }
    if n >= 1000 {
        push_grouped(s, n / 1000);
        s.push(',');
        let r = n % 1000;
        s.push(digit(r / 100));
        s.push(digit(r / 10 % 10));
        s.push(digit(r % 10));
        proof {
            lemma_decimal_split_thousand(n as nat);
            let ds = decimal(n as nat);
            let head = decimal((n / 1000) as nat);
            assert(ds.subrange(0, ds.len() - 3) == head);
            assert(ds.subrange(ds.len() - 3, ds.len() as int) == seq![
                digit_char((r / 100) as int),
                digit_char((r / 10 % 10) as int),
                digit_char((n % 10) as int),
            ]);
        }
    } else {
        push_decimal(s, n);
    }
}


/// The characters of `s`, one by one.
pub fn chars_of(s: &str) -> (v: Vec<char>)
    ensures
        v@ == s@,
{
    let n = s.unicode_len();
    let mut v: Vec<char> = Vec::new();
    let mut i: usize = 0;
    while i < n
        invariant
            n == s@.len(),
            i <= n,
            v@ == s@.subrange(0, i as int),
        decreases n - i,
    {
        v.push(s.get_char(i));
        i = i + 1;
        assert(v@ == s@.subrange(0, i as int));
    }
    assert(s@.subrange(0, n as int) == s@);
    v
}

/// Appends the characters of `cs` to `s`.
pub fn push_chars(s: &mut String, cs: &Vec<char>)
    ensures
        final(s)@ == old(s)@ + cs@,
{
    let mut i: usize = 0;
    while i < cs.len()
        invariant
            i <= cs@.len(),
            s@ == old(s)@ + cs@.subrange(0, i as int),
        decreases cs@.len() - i,
    {
        s.push(cs[i]);
        i = i + 1;
        assert(s@ == old(s)@ + cs@.subrange(0, i as int));
    }
    assert(cs@.subrange(0, cs@.len() as int) == cs@);
}

/// Appends the characters of `cs` from index `from` on.
pub fn push_chars_from(s: &mut String, cs: &Vec<char>, from: usize)
    requires
        from <= cs@.len(),
    ensures
        final(s)@ == old(s)@ + cs@.skip(from as int),
{
    let mut i: usize = from;
    while i < cs.len()
        invariant
            from <= i <= cs@.len(),
            s@ == old(s)@ + cs@.subrange(from as int, i as int),
        decreases cs@.len() - i,
    {
        s.push(cs[i]);
        i = i + 1;
        assert(s@ == old(s)@ + cs@.subrange(from as int, i as int));
    }
    assert(cs@.subrange(from as int, cs@.len() as int) == cs@.skip(from as int));
}

/// Whether two strings hold the same characters.
pub fn str_eq(a: &str, b: &str) -> (r: bool)
    ensures
        r == (a@ == b@),
{
    let n = a.unicode_len();
    if n != b.unicode_len() {
        return false;
    }
    let mut i: usize = 0;
    while i < n
        invariant
            n == a@.len(),
            n == b@.len(),
            i <= n,
            forall|j: int| 0 <= j < i ==> a@[j] == b@[j],
        decreases n - i,
    {
        if a.get_char(i) != b.get_char(i) {
            return false;
        }
        i = i + 1;
    }
    assert(a@ =~= b@);
    true
}

/// `s` followed by spaces up to `width` characters.
pub open spec fn pad_right_spec(s: Seq<char>, width: nat) -> Seq<char> {
    if s.len() >= width {
        s
    } else {
        s + Seq::new((width - s.len()) as nat, |i: int| ' ')
    }
}

/// `s` preceded by spaces up to `width` characters.
pub open spec fn pad_left_spec(s: Seq<char>, width: nat) -> Seq<char> {
    if s.len() >= width {
        s
    } else {
        Seq::new((width - s.len()) as nat, |i: int| ' ') + s
    }
}

/// Appends `count` spaces.
pub fn push_spaces(s: &mut String, count: usize)
    ensures
        final(s)@ == old(s)@ + Seq::new(count as nat, |i: int| ' '),
{
    let mut i: usize = 0;
    while i < count
        invariant
            i <= count,
            s@ == old(s)@ + Seq::new(i as nat, |j: int| ' '),
        decreases count - i,
    {
        s.push(' ');
        i = i + 1;
        assert(s@ =~= old(s)@ + Seq::new(i as nat, |j: int| ' '));
    }
}

/// `s` left-aligned in a field of `width` characters.
pub fn pad_right(s: &str, width: usize) -> (r: String)
    ensures
        r@ == pad_right_spec(s@, width as nat),
{
    let cs = chars_of(s);
    let mut r = String::new();
    push_chars(&mut r, &cs);
    if cs.len() < width {
        push_spaces(&mut r, width - cs.len());
    }
    assert(r@ =~= pad_right_spec(s@, width as nat));
    r
}

/// `s` right-aligned in a field of `width` characters.
pub fn pad_left(s: &str, width: usize) -> (r: String)
    ensures
        r@ == pad_left_spec(s@, width as nat),
{
    let cs = chars_of(s);
    let mut r = String::new();
    if cs.len() < width {
        push_spaces(&mut r, width - cs.len());
    }
    push_chars(&mut r, &cs);
    assert(r@ =~= pad_left_spec(s@, width as nat));
    r
}

/// The decimal representation of `n` as a string.
pub fn decimal_string(n: u64) -> (s: String)
    ensures
        s@ == decimal(n as nat),
{
    let mut s = String::new();
    push_decimal(&mut s, n);
    assert(s@ =~= decimal(n as nat));
    s
}


/// Whether `c` is white space in the sense of `char::is_whitespace` (the
/// Unicode `White_Space` property).
pub open spec fn is_ws(c: char) -> bool {
    let u = c as u32;
    (0x9 <= u <= 0xd) || u == 0x20 || u == 0x85 || u == 0xa0 || u == 0x1680 || (0x2000 <= u
        <= 0x200a) || u == 0x2028 || u == 0x2029 || u == 0x202f || u == 0x205f || u == 0x3000
}

/// Whether a character is white space, as `char::is_whitespace` decides.
pub fn is_whitespace(c: char) -> (r: bool)
    ensures
        r == is_ws(c),
{
    let u = c as u32;
    (0x9 <= u && u <= 0xd) || u == 0x20 || u == 0x85 || u == 0xa0 || u == 0x1680 || (0x2000 <= u
        && u <= 0x200a) || u == 0x2028 || u == 0x2029 || u == 0x202f || u == 0x205f || u == 0x3000
}

/// `s` without the white space at its start and end, as `str::trim` gives
/// it: the part from the first to the last character that is not white
/// space (empty when there is none).
pub open spec fn trimmed(s: Seq<char>, start: int, end: int) -> bool {
    &&& 0 <= start <= end <= s.len()
    &&& forall|i: int| 0 <= i < start ==> is_ws(#[trigger] s[i])
    &&& forall|i: int| end <= i < s.len() ==> is_ws(#[trigger] s[i])
    &&& start < end ==> !is_ws(s[start]) && !is_ws(s[end - 1])
}

/// The bounds of `s` without its leading and trailing white space.
pub fn trim_bounds(s: &Vec<char>) -> (r: (usize, usize))
    ensures
        trimmed(s@, r.0 as int, r.1 as int),
{
    let n = s.len();
    let mut start: usize = 0;
    while start < n && is_whitespace(s[start])
        invariant
            n == s@.len(),
            start <= n,
            forall|i: int| 0 <= i < start ==> is_ws(#[trigger] s@[i]),
        decreases n - start,
    {
        start = start + 1;
    }
    let mut end: usize = n;
    while end > start && is_whitespace(s[end - 1])
        invariant
            n == s@.len(),
            start <= end <= n,
            forall|i: int| end <= i < n ==> is_ws(#[trigger] s@[i]),
            start < n ==> !is_ws(s@[start as int]),
        decreases end,
    {
        end = end - 1;
    }
    (start, end)
}


/// `s` without its commas.
pub open spec fn without_commas(s: Seq<char>) -> Seq<char> {
    s.filter(|c: char| c != ',')
}

proof fn lemma_without_commas_plain(s: Seq<char>)
    requires
        !s.contains(','),
    ensures
        without_commas(s) == s,
    decreases s.len(),
{
    reveal(Seq::filter);
    if s.len() > 0 {
        let d = s.drop_last();
        assert(!d.contains(',')) by {
            if d.contains(',') {
                let i = choose|i: int| 0 <= i < d.len() && d[i] == ',';
                assert(s[i] == ',');
            }
        }
        lemma_without_commas_plain(d);
        assert(d.push(s.last()) == s);
    } else {
        assert(without_commas(s) =~= s);
    }
}

proof fn lemma_group_thousands_digits(ds: Seq<char>)
    requires
        !ds.contains(','),
    ensures
        without_commas(group_thousands(ds)) == ds,
    decreases ds.len(),
{
    if ds.len() > 3 {
        let head = ds.subrange(0, ds.len() - 3);
        let tail = ds.subrange(ds.len() - 3, ds.len() as int);
        assert(!head.contains(',')) by {
            if head.contains(',') {
                let i = choose|i: int| 0 <= i < head.len() && head[i] == ',';
                assert(ds[i] == ',');
            }
        }
        assert(!tail.contains(',')) by {
            if tail.contains(',') {
                let i = choose|i: int| 0 <= i < tail.len() && tail[i] == ',';
                assert(ds[ds.len() - 3 + i] == ',');
            }
        }
        lemma_group_thousands_digits(head);
        lemma_without_commas_plain(tail);
        let p = |c: char| c != ',';
        Seq::filter_distributes_over_add(group_thousands(head) + seq![','], tail, p);
        Seq::filter_distributes_over_add(group_thousands(head), seq![','], p);
        reveal(Seq::filter);
        assert(seq![','].drop_last() =~= Seq::<char>::empty());
        assert(seq![','].last() == ',');
        assert(without_commas(Seq::<char>::empty()) =~= Seq::<char>::empty());
        assert(without_commas(seq![',']) == without_commas(Seq::<char>::empty()));
        assert(without_commas(seq![',']) =~= Seq::<char>::empty());
        assert(head + tail == ds);
    } else {
        lemma_without_commas_plain(ds);
    }
}

/// Separating thousands only adds commas: taking them out again gives the
/// plain decimal digits.
pub proof fn law_separators_keep_digits(n: nat)
    ensures
        without_commas(group_thousands(decimal(n))) == decimal(n),
{
    lemma_decimal_no_comma(n);
    lemma_group_thousands_digits(decimal(n));
}

proof fn lemma_decimal_no_comma(n: nat)
    ensures
        !decimal(n).contains(','),
    decreases n,
{
    if n >= 10 {
        lemma_decimal_no_comma(n / 10);
        let d = decimal(n / 10);
        if decimal(n).contains(',') {
            let i = choose|i: int| 0 <= i < decimal(n).len() && decimal(n)[i] == ',';
            if i < d.len() {
                assert(d[i] == ',');
            }
        }
    }
}

/// Where separating thousands puts its commas: with `f` the length of the
/// first group, commas stand exactly at `f`, `f + 4`, `f + 8`, ...
pub open spec fn commas_at(g: Seq<char>, f: int) -> bool {
    forall|p: int| 0 <= p < g.len() ==> (#[trigger] g[p] == ',' <==> (p >= f && (p - f) % 4 == 0))
}

proof fn lemma_group_positions(ds: Seq<char>)
    requires
        ds.len() >= 1,
        !ds.contains(','),
    ensures
        group_thousands(ds).len() == ds.len() + (ds.len() - 1) / 3,
        commas_at(group_thousands(ds), (ds.len() - 1) % 3 + 1),
    decreases ds.len(),
{
    let len = ds.len() as int;
    let f = (len - 1) % 3 + 1;
    let g = group_thousands(ds);
    if len <= 3 {
        assert forall|p: int| 0 <= p < g.len() implies (#[trigger] g[p] == ',' <==> (p >= f && (p - f) % 4
            == 0)) by {
            assert(ds[p] == g[p]);
            if g[p] == ',' {
                assert(ds.contains(','));
            }
        }
    } else {
        let head = ds.subrange(0, len - 3);
        let tail = ds.subrange(len - 3, len);
        assert(!head.contains(',')) by {
            if head.contains(',') {
                let i = choose|i: int| 0 <= i < head.len() && head[i] == ',';
                assert(ds[i] == ',');
            }
        }
        lemma_group_positions(head);
        let gh = group_thousands(head);
        let h = len - 3;
        let q = (h - 1) / 3;
        assert((h - 1) % 3 + 1 == f);
        assert(h - 1 == 3 * q + (h - 1) % 3);
        assert((len - 1) / 3 == q + 1);
        assert(gh.len() == h + q);
        assert(g == gh + seq![','] + tail);
        assert forall|p: int| 0 <= p < g.len() implies (#[trigger] g[p] == ',' <==> (p >= f && (p - f) % 4
            == 0)) by {
            if p < gh.len() {
                assert(g[p] == gh[p]);
            } else if p == gh.len() {
                assert(p - f == 4 * q);
            } else {
                let t = p - gh.len() - 1;
                assert(0 <= t < 3);
                assert(g[p] == tail[t]);
                assert(tail[t] == ds[len - 3 + t]);
                if g[p] == ',' {
                    assert(ds.contains(','));
                }
                assert(p - f == 4 * q + 1 + t);
            }
        }
    }
}

/// Separating thousands gives a first group of one to three digits and then
/// groups of exactly three, each after a comma.
pub proof fn law_groups_of_three(n: nat)
    ensures
        ({
            let ds = decimal(n);
            let g = group_thousands(ds);
            let f = (ds.len() - 1) % 3 + 1;
            &&& 1 <= f <= 3
            &&& g.len() == ds.len() + (ds.len() - 1) / 3
            &&& commas_at(g, f)
        }),
{
    lemma_decimal_len(n);
    lemma_decimal_no_comma(n);
    lemma_group_positions(decimal(n));
}

} // verus!
