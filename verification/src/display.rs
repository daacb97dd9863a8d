//! What the tool shows of a scan: sizes in human units, counts with
//! thousands separators, the summary table grouped by kind, and paths
//! written relative to the home directory.

use vstd::prelude::*;
use crate::scanner::{Artifact, ArtifactKind, total_size, lemma_total_size_prefix};
use crate::sort::{Keyed, sort_desc_stable, stable_desc_of, with_key, law_ordering_is_permutation};
use crate::text::{pad_left, pad_left_spec, pad_right, pad_right_spec, chars_of, decimal, digit, digit_char, group_thousands, opt_view, push_decimal, push_grouped};
use crate::paths::{path_strip_prefix, path_strip_prefix_spec};
use crate::float::{f64_int, nearest_double, nearest_quotient, round_half_even, round_half_even_exec, u64_as_double, scaled_round, scaled_round_20, lemma_f64_int_pos, lemma_scaled_round_whole, lemma_scaled_round_at_most_whole};
use vstd::arithmetic::power2::lemma2_to64_rest;

verus! {

broadcast use vstd::seq_lib::group_seq_properties;

/// One row of the summary table: a kind, how many artefacts of it were
/// found, and their bytes together.
#[derive(Debug, Clone, Copy)]
pub struct Group {
    pub kind: ArtifactKind,
    pub count: usize,
    pub total: u64,
}

impl Keyed for Group {
    open spec fn sort_key(&self) -> u64 {
        self.total
    }

    fn key(&self) -> (k: u64) {
        self.total
    }
}

/// The number of artefacts of kind `k`.
pub open spec fn kind_count(arts: Seq<Artifact>, k: ArtifactKind) -> nat
    decreases arts.len(),
{
    if arts.len() == 0 {
        0
    } else {
        kind_count(arts.drop_last(), k) + if arts.last().kind == k {
            1nat
        } else {
            0nat
        }
    }
}

/// The bytes of the artefacts of kind `k` together.
pub open spec fn kind_total(arts: Seq<Artifact>, k: ArtifactKind) -> nat
    decreases arts.len(),
{
    if arts.len() == 0 {
        0
    } else {
        kind_total(arts.drop_last(), k) + if arts.last().kind == k {
            arts.last().size as nat
        } else {
            0nat
        }
    }
}

/// The kinds that occur among the artefacts, each once, in the order of
/// their first occurrence.
pub open spec fn kinds_in_order(arts: Seq<Artifact>) -> Seq<ArtifactKind>
    decreases arts.len(),
{
    if arts.len() == 0 {
        Seq::empty()
    } else {
        let before = kinds_in_order(arts.drop_last());
        if before.contains(arts.last().kind) {
            before
        } else {
            before.push(arts.last().kind)
        }
    }
}

/// The row of kind `k`.
pub open spec fn group_of(arts: Seq<Artifact>, k: ArtifactKind) -> Group {
    Group { kind: k, count: kind_count(arts, k) as usize, total: kind_total(arts, k) as u64 }
}

/// One row per kind that occurs, in the order of first occurrence.
pub open spec fn groups_in_order(arts: Seq<Artifact>) -> Seq<Group> {
    kinds_in_order(arts).map_values(|k: ArtifactKind| group_of(arts, k))
}

proof fn lemma_kind_bounds(arts: Seq<Artifact>, k: ArtifactKind)
    ensures
        kind_count(arts, k) <= arts.len(),
        kind_total(arts, k) <= total_size(arts),
    decreases arts.len(),
{
    if arts.len() > 0 {
        lemma_kind_bounds(arts.drop_last(), k);
    }
}

proof fn lemma_kinds_in_order(arts: Seq<Artifact>)
    ensures
        kinds_in_order(arts).no_duplicates(),
        forall|k: ArtifactKind| #[trigger] kinds_in_order(arts).contains(k) <==> kind_count(arts, k) > 0,
    decreases arts.len(),
{
    if arts.len() > 0 {
        lemma_kinds_in_order(arts.drop_last());
    }
}

/// Groups the artefacts by kind: one row per kind, with the number of
/// artefacts of that kind and their bytes together, the largest total
/// first, and rows of equal total in the order in which their kind first
/// occurs.
pub fn group_artifacts(artifacts: &[Artifact]) -> (groups: Vec<Group>)
    requires
        total_size(artifacts@) <= u64::MAX,
    ensures
        stable_desc_of(groups@, groups_in_order(artifacts@)),
{
    let ghost arts = artifacts@;
    let mut groups: Vec<Group> = Vec::new();
    let mut i: usize = 0;
    while i < artifacts.len()
        invariant
            i <= arts.len(),
            arts == artifacts@,
            total_size(arts) <= u64::MAX,
            groups@ == groups_in_order(arts.take(i as int)),
        decreases arts.len() - i,
    {
        let ghost pre = arts.take(i as int);
        let ghost post = arts.take(i + 1);
        let a = &artifacts[i];
        proof {
            assert(post.drop_last() == pre);
            assert(post.last() == *a);
            lemma_kinds_in_order(pre);
            lemma_kind_bounds(post, a.kind);
            lemma_total_size_prefix(arts, i + 1);
            assert(post.len() <= arts.len());
        }
        let mut j: usize = 0;
        while j < groups.len() && groups[j].kind != a.kind
            invariant
                j <= groups@.len(),
                groups@ == groups_in_order(pre),
                forall|m: int| 0 <= m < j ==> groups@[m].kind != a.kind,
            decreases groups@.len() - j,
        {
            j = j + 1;
        }
        if j < groups.len() {
            let g = groups[j];
            let updated = Group { kind: g.kind, count: g.count + 1, total: g.total + a.size };
            groups.set(j, updated);
            proof {
                assert(kinds_in_order(pre)[j as int] == a.kind);
                assert(kinds_in_order(post) == kinds_in_order(pre));
                assert forall|m: int| 0 <= m < groups@.len() implies groups@[m] == group_of(
                    post,
                    kinds_in_order(post)[m],
                ) by {
                    if m != j {
                        assert(kinds_in_order(pre)[m] != a.kind);
                    }
                }
                assert(groups@ =~= groups_in_order(post));
            }
        } else {
            groups.push(Group { kind: a.kind, count: 1, total: a.size });
            proof {
                assert forall|m: int| 0 <= m < kinds_in_order(pre).len() implies kinds_in_order(
                    pre,
                )[m] != a.kind by {
                    assert(groups@[m].kind == kinds_in_order(pre)[m]);
                }
                assert(!kinds_in_order(pre).contains(a.kind));
                assert(kind_count(pre, a.kind) == 0) by {
                    lemma_kinds_in_order(pre);
                }
                lemma_kind_zero_total(pre, a.kind);
                assert(kinds_in_order(post) == kinds_in_order(pre).push(a.kind));
                assert(groups@ =~= groups_in_order(post));
            }
        }
        i = i + 1;
    }
    proof {
        assert(arts.take(arts.len() as int) == arts);
    }
    sort_desc_stable(groups)
}

proof fn lemma_kind_zero_total(arts: Seq<Artifact>, k: ArtifactKind)
    requires
        kind_count(arts, k) == 0,
    ensures
        kind_total(arts, k) == 0,
    decreases arts.len(),
{
    if arts.len() > 0 {
        lemma_kind_zero_total(arts.drop_last(), k);
    }
}


/// Bytes in a gigabyte, a megabyte and a kilobyte (decimal units).
pub const GB: u64 = 1_000_000_000;
pub const MB: u64 = 1_000_000;
pub const KB: u64 = 1_000;

/// A number of hundredths written with two decimal places.
pub open spec fn two_places(h: nat) -> Seq<char> {
    decimal(h / 100) + seq!['.', digit_char((h / 10 % 10) as int), digit_char((h % 10) as int)]
}

/// `bytes` in `unit`s, in hundredths, as the program computes and writes
/// it: `bytes as f64 / unit as f64` formatted with `{:.2}`. The quotient of
/// the two doubles is rounded to the nearest double, and that double's exact
/// value to the nearest hundredth, ties to even.
pub open spec fn size_hundredths(bytes: nat, unit: nat) -> nat {
    let d = nearest_double(f64_int(bytes), unit);
    round_half_even(d.0 * 100, d.1)
}

/// `bytes` in `unit`s with two decimal places, followed by a space and
/// `name`.
pub open spec fn in_unit(bytes: nat, unit: nat, name: Seq<char>) -> Seq<char> {
    two_places(size_hundredths(bytes, unit)) + seq![' '] + name
}

/// A byte count in the largest decimal unit that it reaches, with two
/// decimal places; below a kilobyte, the exact count of bytes.
pub open spec fn human_size_text(bytes: nat) -> Seq<char> {
    if bytes >= GB {
        in_unit(bytes, GB as nat, seq!['G', 'B'])
    } else if bytes >= MB {
        in_unit(bytes, MB as nat, seq!['M', 'B'])
    } else if bytes >= KB {
        in_unit(bytes, KB as nat, seq!['K', 'B'])
    } else {
        decimal(bytes) + seq![' ', 'B']
    }
}

fn push_in_unit(s: &mut String, bytes: u64, unit: u64, c: char)
    requires
        unit == KB || unit == MB || unit == GB,
        bytes >= unit,
        unit == KB ==> bytes < MB,
        unit == MB ==> bytes < GB,
    ensures
        final(s)@ == old(s)@ + in_unit(bytes as nat, unit as nat, seq![c, 'B']),
{
    let x = u64_as_double(bytes);
    assert(x >= unit);
    assert(x < unit as u128 * 0x20_0000_0000_0000);
    let (p, q) = nearest_quotient(x, unit as u128);
    let h = round_half_even_exec(p * 100, q);
    assert(h <= p * 100 + 1) by (nonlinear_arith)
        requires
            h == round_half_even((p * 100) as nat, q as nat),
            q >= 1,
    ;
    let whole: u64 = (h / 100) as u64;
    push_decimal(s, whole);
    s.push('.');
    s.push(digit((h / 10 % 10) as u64));
    s.push(digit((h % 10) as u64));
    s.push(' ');
    s.push(c);
    s.push('B');
    proof {
        assert(h == size_hundredths(bytes as nat, unit as nat));
        assert(final(s)@ == old(s)@ + in_unit(bytes as nat, unit as nat, seq![c, 'B']));
    }
}

/// Writes a byte count for people: in GB, MB or KB with two decimal places
/// once it reaches the unit, otherwise as a plain number of bytes.
pub fn human_size(bytes: u64) -> (s: String)
    ensures
        s@ == human_size_text(bytes as nat),
{
    let mut s = String::new();
    if bytes >= GB {
        push_in_unit(&mut s, bytes, GB, 'G');
    } else if bytes >= MB {
        push_in_unit(&mut s, bytes, MB, 'M');
    } else if bytes >= KB {
        push_in_unit(&mut s, bytes, KB, 'K');
    } else {
        push_decimal(&mut s, bytes);
        s.push(' ');
        s.push('B');
    }
    s
}

/// Writes a count with a comma between each group of three digits.
pub fn fmt_count(n: u64) -> (s: String)
    ensures
        s@ == group_thousands(decimal(n as nat)),
{
    let mut s = String::new();
    push_grouped(&mut s, n);
    s
}


/// Cells in the proportional bar of the summary table.
pub const BAR_W: usize = 20;

/// The number of filled cells for `size` on a bar of `BAR_W` cells whose
/// full length stands for `max`: `size / max * BAR_W` computed in doubles
/// as `((size as f64 / max as f64) * BAR_W as f64).round() as usize` does
/// (see `scaled_round`), no cells when `max` or `size` is zero, and
/// `usize::MAX` where the number does not fit.
pub open spec fn bar_cells_spec(size: nat, max: nat) -> nat {
    if max == 0 || size == 0 {
        0
    } else {
        let c = scaled_round(f64_int(size), f64_int(max), BAR_W as nat);
        if c > usize::MAX {
            usize::MAX as nat
        } else {
            c
        }
    }
}

/// The number of filled cells in a proportional bar.
pub fn bar_cells(size: u64, max: u64) -> (cells: usize)
    ensures
        cells == bar_cells_spec(size as nat, max as nat),
{
    if max == 0 || size == 0 {
        return 0;
    }
    let a = u64_as_double(size);
    let b = u64_as_double(max);
    proof {
        lemma2_to64_rest();
        lemma_f64_int_pos(size as nat);
        lemma_f64_int_pos(max as nat);
    }
    let c = scaled_round_20(a, b);
    if c > usize::MAX as u128 {
        usize::MAX
    } else {
        c as usize
    }
}

/// An empty size fills no cell.
pub proof fn law_bar_empty(max: nat)
    ensures
        bar_cells_spec(0, max) == 0,
{
}

/// A size up to the largest fills at most the whole bar.
pub proof fn law_bar_bounded(size: u64, max: u64)
    requires
        size <= max,
    ensures
        bar_cells_spec(size as nat, max as nat) <= BAR_W,
{
    if size > 0 {
        lemma2_to64_rest();
        lemma_scaled_round_at_most_whole(size as nat, max as nat);
    }
}

/// The largest size fills the whole bar.
pub proof fn law_bar_full(max: u64)
    requires
        max > 0,
    ensures
        bar_cells_spec(max as nat, max as nat) == BAR_W,
{
    lemma2_to64_rest();
    lemma_f64_int_pos(max as nat);
    lemma_scaled_round_whole(f64_int(max as nat));
}

/// How loudly a size is shown.
#[derive(Debug, Clone, Copy, PartialEq, Eq, Structural)]
pub enum SizeTier {
    /// A gigabyte or more.
    Large,
    /// A hundred megabytes or more.
    Medium,
    /// Less.
    Small,
}

/// From this many bytes a size is shown as large.
pub const RED_THRESHOLD: u64 = 1_000_000_000;

/// From this many bytes a size is shown as medium.
pub const YELLOW_THRESHOLD: u64 = 100_000_000;

/// The tier in which a size is shown.
pub fn size_tier(bytes: u64) -> (t: SizeTier)
    ensures
        t == (if bytes >= RED_THRESHOLD {
            SizeTier::Large
        } else if bytes >= YELLOW_THRESHOLD {
            SizeTier::Medium
        } else {
            SizeTier::Small
        }),
{
    if bytes >= RED_THRESHOLD {
        SizeTier::Large
    } else if bytes >= YELLOW_THRESHOLD {
        SizeTier::Medium
    } else {
        SizeTier::Small
    }
}


/// `s` with every backslash turned into a slash.
pub open spec fn forward_slashes(s: Seq<char>) -> Seq<char> {
    s.map_values(|c: char| if c == '\\' { '/' } else { c })
}

/// How a path is shown: relative to the home directory as `~/...` when it
/// lies under it, otherwise as it is; with forward slashes either way.
pub open spec fn display_path_spec(path: Seq<char>, home: Option<Seq<char>>) -> Seq<char> {
    let raw = match home {
        Some(h) => match path_strip_prefix_spec(path, h) {
            Some(rel) => "~/"@ + rel,
            None => path,
        },
        None => path,
    };
    forward_slashes(raw)
}

/// A path as shown to people never holds a backslash.
pub proof fn law_shown_paths_use_slashes(path: Seq<char>, home: Option<Seq<char>>)
    ensures
        !display_path_spec(path, home).contains('\\'),
{
    let r = display_path_spec(path, home);
    if r.contains('\\') {
        let i = choose|i: int| 0 <= i < r.len() && r[i] == '\\';
        assert(r[i] == '\\');
    }
}

/// Writes a path for people, shortening the home directory to `~`.
pub fn display_path(path: &str, home: Option<&str>) -> (r: String)
    ensures
        r@ == display_path_spec(path@, opt_view(home)),
{
    let mut raw = String::new();
    match home {
        Some(h) => match path_strip_prefix(path, h) {
            Some(rel) => {
                raw.append("~/");
                raw.append(rel.as_str());
            },
            None => {
                raw.append(path);
            },
        },
        None => {
            raw.append(path);
        },
    }
    let cs = chars_of(raw.as_str());
    let mut r = String::new();
    let mut i: usize = 0;
    while i < cs.len()
        invariant
            i <= cs@.len(),
            r@ == forward_slashes(cs@.subrange(0, i as int)),
        decreases cs@.len() - i,
    {
        let c = cs[i];
        if c == '\\' {
            r.push('/');
        } else {
            r.push(c);
        }
        i = i + 1;
        assert(r@ =~= forward_slashes(cs@.subrange(0, i as int)));
    }
    assert(cs@.subrange(0, cs@.len() as int) == cs@);
    r
}


/// Widths of the columns of the summary table.
pub const TYPE_W: usize = 18;
pub const COUNT_W: usize = 7;
pub const SIZE_W: usize = 10;

/// The headline of the scan results.
pub open spec fn results_header_text(total: nat, count: nat, elapsed: Seq<char>) -> Seq<char> {
    "  "@ + human_size_text(total) + " reclaimable — "@ + group_thousands(decimal(count)) + (if count
        == 1 {
        " artefact found in "@
    } else {
        " artefacts found in "@
    }) + elapsed
}

/// The headline of the scan results: the reclaimable bytes, the number of
/// artefacts and how long the scan took (as written by the caller).
pub fn results_header(total: u64, count: u64, elapsed: &str) -> (r: String)
    ensures
        r@ == results_header_text(total as nat, count as nat, elapsed@),
{
    let mut r = String::from_str("  ");
    let size = human_size(total);
    r.append(size.as_str());
    r.append(" reclaimable — ");
    let n = fmt_count(count);
    r.append(n.as_str());
    if count == 1 {
        r.append(" artefact found in ");
    } else {
        r.append(" artefacts found in ");
    }
    r.append(elapsed);
    r
}

/// One row of the summary table, column by column.
pub struct Row {
    pub type_col: String,
    pub count_col: String,
    pub size_col: String,
    /// Filled cells of the bar.
    pub filled: usize,
    /// Empty cells of the bar.
    pub empty: usize,
}

/// The filled cells of a group's bar: its share of the largest total, at
/// most the whole bar.
pub open spec fn filled_cells(total: nat, max: nat) -> nat {
    if bar_cells_spec(total, max) < BAR_W {
        bar_cells_spec(total, max)
    } else {
        BAR_W as nat
    }
}

/// The row of a group, its bar scaled so that `max` fills it.
pub fn table_row(g: &Group, max: u64) -> (r: Row)
    ensures
        r.type_col@ == pad_right_spec(crate::scanner::kind_label(g.kind), TYPE_W as nat),
        r.count_col@ == pad_left_spec(group_thousands(decimal(g.count as nat)), COUNT_W as nat),
        r.size_col@ == pad_left_spec(human_size_text(g.total as nat), SIZE_W as nat),
        r.filled == filled_cells(g.total as nat, max as nat),
        r.filled + r.empty == BAR_W,
{
    let type_col = pad_right(g.kind.label(), TYPE_W);
    let n = fmt_count(g.count as u64);
    let count_col = pad_left(n.as_str(), COUNT_W);
    let size = human_size(g.total);
    let size_col = pad_left(size.as_str(), SIZE_W);
    let cells = bar_cells(g.total, max);
    let filled = if cells < BAR_W {
        cells
    } else {
        BAR_W
    };
    Row { type_col, count_col, size_col, filled, empty: BAR_W - filled }
}

/// The total that fills a whole bar: that of the first (largest) group, or
/// zero when there is none.
pub fn bar_scale(groups: &Vec<Group>) -> (m: u64)
    ensures
        m == (if groups@.len() > 0 {
            groups@[0].total
        } else {
            0
        }),
{
    if groups.len() > 0 {
        groups[0].total
    } else {
        0
    }
}

/// The columns of a line of the detailed list: the position counted from
/// one in 4 characters, the label in 18, the size in 10, and the path as
/// shown to people.
pub fn list_columns(position: usize, a: &Artifact, home: Option<&str>) -> (r: (String, String, String, String))
    requires
        position < usize::MAX,
    ensures
        r.0@ == pad_left_spec(decimal(position as nat + 1), 4),
        r.1@ == pad_right_spec(crate::scanner::kind_label(a.kind), 18),
        r.2@ == pad_left_spec(human_size_text(a.size as nat), 10),
        r.3@ == display_path_spec(a.path@, opt_view(home)),
{
    let n = crate::text::decimal_string(position as u64 + 1);
    let pos_col = pad_left(n.as_str(), 4);
    let label_col = pad_right(a.kind.label(), 18);
    let size = human_size(a.size);
    let size_col = pad_left(size.as_str(), 10);
    let shown = display_path(a.path.as_str(), home);
    (pos_col, label_col, size_col, shown)
}


/// The totals of the rows added up.
pub open spec fn rows_total(gs: Seq<Group>) -> nat
    decreases gs.len(),
{
    if gs.len() == 0 {
        0
    } else {
        rows_total(gs.drop_last()) + gs.last().total as nat
    }
}

/// The counts of the rows added up.
pub open spec fn rows_count(gs: Seq<Group>) -> nat
    decreases gs.len(),
{
    if gs.len() == 0 {
        0
    } else {
        rows_count(gs.drop_last()) + gs.last().count as nat
    }
}

/// The bytes and numbers of the given kinds added up.
pub open spec fn kinds_sum(arts: Seq<Artifact>, ks: Seq<ArtifactKind>) -> (nat, nat)
    decreases ks.len(),
{
    if ks.len() == 0 {
        (0, 0)
    } else {
        let before = kinds_sum(arts, ks.drop_last());
        (before.0 + kind_total(arts, ks.last()), before.1 + kind_count(arts, ks.last()))
    }
}

proof fn lemma_kinds_sum_push(pre: Seq<Artifact>, a: Artifact, ks: Seq<ArtifactKind>)
    requires
        ks.no_duplicates(),
    ensures
        kinds_sum(pre.push(a), ks) == if ks.contains(a.kind) {
            (kinds_sum(pre, ks).0 + a.size as nat, kinds_sum(pre, ks).1 + 1)
        } else {
            kinds_sum(pre, ks)
        },
    decreases ks.len(),
{
    let post = pre.push(a);
    assert(post.drop_last() == pre);
    if ks.len() > 0 {
        let d = ks.drop_last();
        assert(d.no_duplicates());
        lemma_kinds_sum_push(pre, a, d);
        if ks.last() == a.kind {
            assert(!d.contains(a.kind)) by {
                if d.contains(a.kind) {
                    let i = choose|i: int| 0 <= i < d.len() && d[i] == a.kind;
                    assert(ks[i] == ks[ks.len() - 1]);
                }
            }
        } else {
            assert(ks.contains(a.kind) == d.contains(a.kind)) by {
                if ks.contains(a.kind) {
                    let i = choose|i: int| 0 <= i < ks.len() && ks[i] == a.kind;
                    assert(d[i] == a.kind);
                }
                if d.contains(a.kind) {
                    let i = choose|i: int| 0 <= i < d.len() && d[i] == a.kind;
                    assert(ks[i] == a.kind);
                }
            }
        }
    }
}

proof fn lemma_kinds_sum_all(arts: Seq<Artifact>)
    ensures
        kinds_sum(arts, kinds_in_order(arts)) == (total_size(arts), arts.len()),
    decreases arts.len(),
{
    if arts.len() > 0 {
        let pre = arts.drop_last();
        let a = arts.last();
        assert(pre.push(a) == arts);
        lemma_kinds_sum_all(pre);
        lemma_kinds_in_order(pre);
        let ks = kinds_in_order(pre);
        lemma_kinds_sum_push(pre, a, ks);
        if !ks.contains(a.kind) {
            lemma_kinds_sum_push(pre, a, ks.push(a.kind));
            assert(ks.push(a.kind).drop_last() == ks);
            lemma_kind_zero_total(pre, a.kind);
            assert(ks.push(a.kind).no_duplicates());
        }
    }
}

proof fn lemma_rows_of_kinds(arts: Seq<Artifact>, ks: Seq<ArtifactKind>)
    requires
        total_size(arts) <= u64::MAX,
        arts.len() <= usize::MAX,
    ensures
        (rows_total(ks.map_values(|k: ArtifactKind| group_of(arts, k))), rows_count(
            ks.map_values(|k: ArtifactKind| group_of(arts, k)),
        )) == kinds_sum(arts, ks),
    decreases ks.len(),
{
    if ks.len() > 0 {
        let f = |k: ArtifactKind| group_of(arts, k);
        lemma_rows_of_kinds(arts, ks.drop_last());
        assert(ks.map_values(f).drop_last() == ks.drop_last().map_values(f));
        lemma_kind_bounds(arts, ks.last());
    }
}

proof fn lemma_rows_remove(gs: Seq<Group>, i: int)
    requires
        0 <= i < gs.len(),
    ensures
        rows_total(gs) == rows_total(gs.remove(i)) + gs[i].total,
        rows_count(gs) == rows_count(gs.remove(i)) + gs[i].count,
    decreases gs.len(),
{
    if i < gs.len() - 1 {
        let d = gs.drop_last();
        lemma_rows_remove(d, i);
        assert(gs.remove(i).drop_last() == d.remove(i));
        assert(gs.remove(i).last() == gs.last());
    } else {
        assert(gs.remove(i) == gs.drop_last());
    }
}

proof fn lemma_rows_permutation(a: Seq<Group>, b: Seq<Group>)
    requires
        a.to_multiset() =~= b.to_multiset(),
    ensures
        rows_total(a) == rows_total(b),
        rows_count(a) == rows_count(b),
    decreases a.len(),
{
    broadcast use vstd::seq_lib::group_to_multiset_ensures;
    if a.len() > 0 {
        let x = a.last();
        let d = a.drop_last();
        assert(d.push(x) == a);
        assert(a.to_multiset() =~= d.to_multiset().insert(x));
        assert(b.to_multiset().count(x) > 0);
        assert(b.contains(x));
        let i = choose|i: int| 0 <= i < b.len() && b[i] == x;
        assert(b.remove(i).to_multiset() =~= b.to_multiset().remove(x));
        assert(d.to_multiset() =~= b.remove(i).to_multiset());
        lemma_rows_permutation(d, b.remove(i));
        lemma_rows_remove(b, i);
    } else {
        assert(b.to_multiset().len() == 0);
    }
}

/// The rows of the summary table add up to the whole: their totals to the
/// bytes of all the artefacts, their counts to the number of artefacts.
pub proof fn law_rows_add_up(arts: Seq<Artifact>, groups: Seq<Group>)
    requires
        total_size(arts) <= u64::MAX,
        arts.len() <= usize::MAX,
        stable_desc_of(groups, groups_in_order(arts)),
    ensures
        rows_total(groups) == total_size(arts),
        rows_count(groups) == arts.len(),
{
    law_ordering_is_permutation(groups, groups_in_order(arts));
    lemma_rows_permutation(groups, groups_in_order(arts));
    lemma_rows_of_kinds(arts, kinds_in_order(arts));
    lemma_kinds_sum_all(arts);
}

/// The summary table has exactly one row per kind found, and each row holds
/// the number of artefacts of its kind and their bytes together.
pub proof fn law_one_row_per_kind(arts: Seq<Artifact>, groups: Seq<Group>)
    requires
        total_size(arts) <= u64::MAX,
        arts.len() <= usize::MAX,
        stable_desc_of(groups, groups_in_order(arts)),
    ensures
        forall|i: int, j: int|
            0 <= i < j < groups.len() ==> #[trigger] groups[i].kind != #[trigger] groups[j].kind,
        forall|i: int|
            0 <= i < groups.len() ==> {
                &&& kind_count(arts, #[trigger] groups[i].kind) > 0
                &&& groups[i].count == kind_count(arts, groups[i].kind)
                &&& groups[i].total == kind_total(arts, groups[i].kind)
            },
        forall|k: ArtifactKind|
            #[trigger] kind_count(arts, k) > 0 ==> exists|i: int| 0 <= i < groups.len() && groups[i].kind == k,
{
    broadcast use vstd::seq_lib::group_to_multiset_ensures;
    let g0 = groups_in_order(arts);
    let ks = kinds_in_order(arts);
    lemma_kinds_in_order(arts);
    law_ordering_is_permutation(groups, g0);
    assert forall|j: int| 0 <= j < g0.len() implies {
        &&& (#[trigger] g0[j]).kind == ks[j]
        &&& g0[j].count == kind_count(arts, ks[j])
        &&& g0[j].total == kind_total(arts, ks[j])
        &&& kind_count(arts, ks[j]) > 0
    } by {
        assert(ks.contains(ks[j]));
        lemma_kind_bounds(arts, ks[j]);
    }
    assert(g0.no_duplicates()) by {
        assert forall|a: int, b: int| 0 <= a < g0.len() && 0 <= b < g0.len() && a != b implies g0[a]
            != g0[b] by {
            assert(g0[a].kind == ks[a]);
            assert(g0[b].kind == ks[b]);
        }
    }
    g0.lemma_multiset_has_no_duplicates();
    groups.lemma_multiset_has_no_duplicates_conv();
    assert forall|i: int| 0 <= i < groups.len() implies exists|j: int|
        0 <= j < g0.len() && g0[j] == #[trigger] groups[i] by {
        assert(groups.to_multiset().contains(groups[i]));
        assert(g0.contains(groups[i]));
    }
    assert forall|i: int, j: int| 0 <= i < j < groups.len() implies #[trigger] groups[i].kind
        != #[trigger] groups[j].kind by {
        let a = choose|a: int| 0 <= a < g0.len() && g0[a] == groups[i];
        let b = choose|b: int| 0 <= b < g0.len() && g0[b] == groups[j];
        assert(groups[i] != groups[j]);
        assert(g0[a].kind == ks[a]);
        assert(g0[b].kind == ks[b]);
        if ks[a] == ks[b] {
            assert(a == b);
        }
    }
    assert forall|i: int| 0 <= i < groups.len() implies {
        &&& kind_count(arts, #[trigger] groups[i].kind) > 0
        &&& groups[i].count == kind_count(arts, groups[i].kind)
        &&& groups[i].total == kind_total(arts, groups[i].kind)
    } by {
        let a = choose|a: int| 0 <= a < g0.len() && g0[a] == groups[i];
        assert(g0[a].kind == ks[a]);
    }
    assert forall|k: ArtifactKind| #[trigger] kind_count(arts, k) > 0 implies exists|i: int|
        0 <= i < groups.len() && groups[i].kind == k by {
        assert(ks.contains(k));
        let j = choose|j: int| 0 <= j < ks.len() && ks[j] == k;
        assert(g0[j].kind == k);
        assert(g0.to_multiset().contains(g0[j]));
        assert(groups.contains(g0[j]));
        let i = choose|i: int| 0 <= i < groups.len() && groups[i] == g0[j];
        assert(groups[i].kind == k);
    }
}

/// The artefacts of a given size, in their order.
pub open spec fn sized(arts: Seq<Artifact>, size: u64) -> Seq<Artifact> {
    arts.filter(|a: Artifact| a.size == size)
}

/// The rows with a given total, in their order.
pub open spec fn totalling(gs: Seq<Group>, total: u64) -> Seq<Group> {
    gs.filter(|g: Group| g.total == total)
}

/// Artefacts put in order for listing come largest first; artefacts of the
/// same size keep their order; and none is added or lost.
pub proof fn law_artifacts_largest_first(r: Seq<Artifact>, s: Seq<Artifact>)
    requires
        stable_desc_of(r, s),
    ensures
        forall|i: int, j: int| 0 <= i < j < r.len() ==> r[i].size >= r[j].size,
        forall|n: u64| #[trigger] sized(r, n) == sized(s, n),
        r.to_multiset() =~= s.to_multiset(),
{
    assert forall|i: int, j: int| 0 <= i < j < r.len() implies r[i].size >= r[j].size by {
        assert(r[i].sort_key() >= r[j].sort_key());
    }
    assert forall|n: u64| #[trigger] sized(r, n) == sized(s, n) by {
        assert(with_key(r, n) == with_key(s, n));
        assert((|x: Artifact| x.sort_key() == n) =~= (|a: Artifact| a.size == n));
    }
    law_ordering_is_permutation(r, s);
}

/// The rows of the summary table put in order come with the largest total
/// first; rows of the same total keep their order; and none is added or
/// lost.
pub proof fn law_groups_largest_first(r: Seq<Group>, s: Seq<Group>)
    requires
        stable_desc_of(r, s),
    ensures
        forall|i: int, j: int| 0 <= i < j < r.len() ==> r[i].total >= r[j].total,
        forall|n: u64| #[trigger] totalling(r, n) == totalling(s, n),
        r.to_multiset() =~= s.to_multiset(),
{
    assert forall|i: int, j: int| 0 <= i < j < r.len() implies r[i].total >= r[j].total by {
        assert(r[i].sort_key() >= r[j].sort_key());
    }
    assert forall|n: u64| #[trigger] totalling(r, n) == totalling(s, n) by {
        assert(with_key(r, n) == with_key(s, n));
        assert((|x: Group| x.sort_key() == n) =~= (|g: Group| g.total == n));
    }
    law_ordering_is_permutation(r, s);
}

} // verus!
