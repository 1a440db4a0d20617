//! Formatting and summaries of packages: sizes, tables, graphs.

use vstd::prelude::*;
use crate::models::{opt_view, DependencyGraph, DependencyNode, Package, PackageModel, PackageSource};
use crate::sort::{size_leq, sort_sizes};
use crate::strmap::{views_of, StrMap};
use crate::text::{
    chars_of, contains_spec, contains_str, decimal, digit_char, lines_of, lines_spec, owned, push_char,
    push_str, push_u128, push_u64, split_on, split_spec, string_of_range, trim, trim_spec,
};

verus! {

broadcast use vstd::string::group_string_axioms;

/// The spacing of 64-bit floating point numbers around `b` (`b < 2^64`):
/// 1 below 2^53, doubling at each further power of two.
pub open spec fn f64_grain(b: nat) -> nat {
    if b >= 0x8000_0000_0000_0000 {
        2048
    } else if b >= 0x4000_0000_0000_0000 {
        1024
    } else if b >= 0x2000_0000_0000_0000 {
        512
    } else if b >= 0x1000_0000_0000_0000 {
        256
    } else if b >= 0x0800_0000_0000_0000 {
        128
    } else if b >= 0x0400_0000_0000_0000 {
        64
    } else if b >= 0x0200_0000_0000_0000 {
        32
    } else if b >= 0x0100_0000_0000_0000 {
        16
    } else if b >= 0x0080_0000_0000_0000 {
        8
    } else if b >= 0x0040_0000_0000_0000 {
        4
    } else if b >= 0x0020_0000_0000_0000 {
        2
    } else {
        1
    }
}

/// `x / d` rounded to the nearest integer, ties to even.
pub open spec fn div_round_even(x: nat, d: nat) -> nat {
    let q = x / d;
    let r = x % d;
    if 2 * r > d || (2 * r == d && q % 2 == 1) {
        q + 1
    } else {
        q
    }
}

/// The 64-bit floating point number nearest to `b` (ties to even), as an integer.
pub open spec fn as_f64(b: nat) -> nat {
    div_round_even(b, f64_grain(b)) * f64_grain(b)
}

/// How many times 1024 divides into `b` before the unit runs out (0 = B .. 4 = TB).
pub open spec fn size_unit(b: nat) -> nat {
    if b >= 0x100_0000_0000 {
        4
    } else if b >= 0x4000_0000 {
        3
    } else if b >= 0x10_0000 {
        2
    } else if b >= 0x400 {
        1
    } else {
        0
    }
}

/// 1024 to the power of a unit.
pub open spec fn unit_scale(k: nat) -> nat {
    if k == 4 {
        0x100_0000_0000
    } else if k == 3 {
        0x4000_0000
    } else if k == 2 {
        0x10_0000
    } else if k == 1 {
        0x400
    } else {
        1
    }
}

/// The name of a unit.
pub open spec fn unit_name(k: nat) -> Seq<char> {
    if k == 4 {
        "TB"@
    } else if k == 3 {
        "GB"@
    } else if k == 2 {
        "MB"@
    } else if k == 1 {
        "KB"@
    } else {
        "B"@
    }
}

/// A size in tenths of its unit, rounded to nearest (ties to even).
pub open spec fn size_tenths(b: nat) -> nat {
    div_round_even(10 * as_f64(b), unit_scale(size_unit(b)))
}

/// A size as "<whole>.<tenth> <unit>", in the largest unit (up to TB) that it reaches.
pub open spec fn format_size_spec(b: nat) -> Seq<char> {
    let t = size_tenths(b);
    decimal(t / 10) + seq!['.'] + seq![digit_char(t % 10)] + seq![' '] + unit_name(size_unit(b))
}

/// `x / d` rounded to the nearest integer, ties to even.
fn div_round_even_exec(x: u128, d: u128) -> (r: u128)
    requires
        0 < d <= 0x1_0000_0000_0000,
        x < 0x1_0000_0000_0000_0000_0000_0000,
    ensures
        r == div_round_even(x as nat, d as nat),
{
    let q = x / d;
    let r = x % d;
    if 2 * r > d || (2 * r == d && q % 2 == 1) {
        q + 1
    } else {
        q
    }
}

/// Formats a byte count with one decimal in the largest unit it reaches
/// ("0.0 B", "1.0 KB", "1.5 MB", ... "TB"), the way a 64-bit float prints with `{:.1}`.
pub fn format_size(bytes: u64) -> (s: String)
    ensures
        s@ == format_size_spec(bytes as nat),
{
    let b = bytes as u128;
    let g: u128 = if b >= 0x8000_0000_0000_0000 {
        2048
    } else if b >= 0x4000_0000_0000_0000 {
        1024
    } else if b >= 0x2000_0000_0000_0000 {
        512
    } else if b >= 0x1000_0000_0000_0000 {
        256
    } else if b >= 0x0800_0000_0000_0000 {
        128
    } else if b >= 0x0400_0000_0000_0000 {
        64
    } else if b >= 0x0200_0000_0000_0000 {
        32
    } else if b >= 0x0100_0000_0000_0000 {
        16
    } else if b >= 0x0080_0000_0000_0000 {
        8
    } else if b >= 0x0040_0000_0000_0000 {
        4
    } else if b >= 0x0020_0000_0000_0000 {
        2
    } else {
        1
    };
    let n = div_round_even_exec(b, g);
    proof {
        assert(n <= b / g + 1);
        assert(b / g <= b) by (nonlinear_arith)
            requires
                g >= 1,
        ;
        assert(n * g <= (b + 1) * 2048) by (nonlinear_arith)
            requires
                n <= b + 1,
                1 <= g <= 2048,
        ;
    }
    let f = n * g;
    let (k, d): (u8, u128) = if b >= 0x100_0000_0000 {
        (4, 0x100_0000_0000)
    } else if b >= 0x4000_0000 {
        (3, 0x4000_0000)
    } else if b >= 0x10_0000 {
        (2, 0x10_0000)
    } else if b >= 0x400 {
        (1, 0x400)
    } else {
        (0, 1)
    };
    let t = div_round_even_exec(10 * f, d);
    let mut s = String::new();
    push_u128(&mut s, t / 10);
    push_char(&mut s, '.');
    let digit: u8 = (t % 10) as u8;
    push_char(&mut s, (48u8 + digit) as char);
    push_char(&mut s, ' ');
    if k == 4 {
        push_str(&mut s, "TB");
    } else if k == 3 {
        push_str(&mut s, "GB");
    } else if k == 2 {
        push_str(&mut s, "MB");
    } else if k == 1 {
        push_str(&mut s, "KB");
    } else {
        push_str(&mut s, "B");
    }
    s
}

/// A size as printed, or "unknown".
pub open spec fn size_text(s: Option<u64>) -> Seq<char> {
    match s {
        Some(b) => format_size_spec(b as nat),
        None => "unknown"@,
    }
}

/// An optional text, or a default.
pub open spec fn text_or(s: Option<Seq<char>>, d: Seq<char>) -> Seq<char> {
    match s {
        Some(x) => x,
        None => d,
    }
}

/// Appends the printed size, or "unknown".
fn push_size(s: &mut String, size: Option<u64>)
    ensures
        final(s)@ == old(s)@ + size_text(size),
{
    match size {
        Some(b) => {
            let t = format_size(b);
            push_str(s, t.as_str());
        },
        None => push_str(s, "unknown"),
    }
}

/// Appends an optional text, or a default.
fn push_opt(s: &mut String, t: &Option<String>, d: &str)
    ensures
        final(s)@ == old(s)@ + text_or(opt_view(*t), d@),
{
    match t {
        Some(x) => push_str(s, x.as_str()),
        None => push_str(s, d),
    }
}

/// One row of the package table.
pub open spec fn markdown_row(p: PackageModel) -> Seq<char> {
    "| "@ + p.name + " | "@ + text_or(p.version, "unknown"@) + " | "@ + p.source.name() + " | "@
        + p.install_path + " | "@ + size_text(p.size) + " |\n"@
}

/// The rows of the package table, in order.
pub open spec fn markdown_rows(ps: Seq<Package>) -> Seq<char>
    decreases ps.len(),
{
    if ps.len() == 0 {
        Seq::empty()
    } else {
        markdown_rows(ps.drop_last()) + markdown_row(ps.last()@)
    }
}

/// The number of times `c` occurs in `s`.
pub open spec fn count_char(s: Seq<char>, c: char) -> nat
    decreases s.len(),
{
    if s.len() == 0 {
        0
    } else {
        count_char(s.drop_last(), c) + if s.last() == c {
            1nat
        } else {
            0nat
        }
    }
}

/// Occurrences in a concatenation add up.
proof fn lemma_count_concat(a: Seq<char>, b: Seq<char>, c: char)
    ensures
        count_char(a + b, c) == count_char(a, c) + count_char(b, c),
    decreases b.len(),
{
    if b.len() == 0 {
        assert(a + b =~= a);
    } else {
        lemma_count_concat(a, b.drop_last(), c);
        assert((a + b).drop_last() =~= a + b.drop_last());
        assert((a + b).last() == b.last());
    }
}

/// A text without `c` holds it no times.
proof fn lemma_count_absent(s: Seq<char>, c: char)
    requires
        forall|i: int| 0 <= i < s.len() ==> s[i] != c,
    ensures
        count_char(s, c) == 0,
    decreases s.len(),
{
    if s.len() > 0 {
        lemma_count_absent(s.drop_last(), c);
        assert(s[s.len() - 1] == s.last());
    }
}

/// Whether no character of `s` is a line feed.
pub open spec fn one_line(s: Seq<char>) -> bool {
    forall|i: int| 0 <= i < s.len() ==> s[i] != '\n'
}

/// Decimal digits hold no line feed.
proof fn lemma_decimal_one_line(n: nat)
    ensures
        one_line(decimal(n)),
    decreases n,
{
    let d = (n % 10) as nat;
    assert(((48 + d) as char) as int == 48 + d);
    if n >= 10 {
        lemma_decimal_one_line(n / 10);
        assert(decimal(n) == decimal(n / 10).push(digit_char(d)));
        assert forall|i: int| 0 <= i < decimal(n).len() implies decimal(n)[i] != '\n' by {
            if i < decimal(n / 10).len() {
                assert(decimal(n)[i] == decimal(n / 10)[i]);
            }
        }
    }
}

/// A size column holds no line feed.
proof fn lemma_size_text_one_line(z: Option<u64>)
    ensures
        one_line(size_text(z)),
{
    reveal_strlit("unknown");
    reveal_strlit("TB");
    reveal_strlit("GB");
    reveal_strlit("MB");
    reveal_strlit("KB");
    reveal_strlit("B");
    match z {
        Some(b) => {
            let t = size_tenths(b as nat);
            let d = (t % 10) as nat;
            assert(((48 + d) as char) as int == 48 + d);
            lemma_decimal_one_line(t / 10);
            let a = decimal(t / 10);
            let rest = seq!['.'] + seq![digit_char(d)] + seq![' '] + unit_name(size_unit(b as nat));
            assert(format_size_spec(b as nat) == a + rest);
            assert(one_line(rest));
            assert forall|i: int| 0 <= i < (a + rest).len() implies (a + rest)[i] != '\n' by {
                if i < a.len() {
                    assert((a + rest)[i] == a[i]);
                } else {
                    assert((a + rest)[i] == rest[i - a.len()]);
                }
            }
        },
        None => {},
    }
}

/// A source name holds no line feed.
proof fn lemma_source_name_one_line(s: PackageSource)
    ensures
        one_line(s.name()),
{
    reveal_strlit("pkg");
    reveal_strlit("cargo");
    reveal_strlit("pip");
    reveal_strlit("npm");
    reveal_strlit("gem");
    reveal_strlit("manual");
    reveal_strlit("unknown");
}

/// Whether a package's name, version and location hold no line feed.
pub open spec fn fields_one_line(p: PackageModel) -> bool {
    &&& one_line(p.name)
    &&& one_line(p.install_path)
    &&& p.version matches Some(v) ==> one_line(v)
}

/// A table row ends in the only line feed it holds.
proof fn lemma_row_one_line_feed(p: PackageModel)
    requires
        fields_one_line(p),
    ensures
        count_char(markdown_row(p), '\n') == 1,
{
    reveal_strlit("| ");
    reveal_strlit(" | ");
    reveal_strlit(" |\n");
    reveal_strlit("unknown");
    lemma_size_text_one_line(p.size);
    lemma_source_name_one_line(p.source);
    let bar = " | "@;
    let parts = seq![
        "| "@,
        p.name,
        bar,
        text_or(p.version, "unknown"@),
        bar,
        p.source.name(),
        bar,
        p.install_path,
        bar,
        size_text(p.size),
    ];
    let head = "| "@ + p.name + bar + text_or(p.version, "unknown"@) + bar + p.source.name() + bar + p.install_path + bar
        + size_text(p.size);
    assert(markdown_row(p) == head + " |\n"@);
    let c = '\n';
    assert(one_line("| "@));
    assert(one_line(bar));
    lemma_count_absent("| "@, c);
    lemma_count_absent(p.name, c);
    lemma_count_absent(bar, c);
    lemma_count_absent(text_or(p.version, "unknown"@), c);
    lemma_count_absent(p.source.name(), c);
    lemma_count_absent(p.install_path, c);
    lemma_count_absent(size_text(p.size), c);
    lemma_count_concat("| "@, p.name, c);
    lemma_count_concat("| "@ + p.name, bar, c);
    lemma_count_concat("| "@ + p.name + bar, text_or(p.version, "unknown"@), c);
    lemma_count_concat("| "@ + p.name + bar + text_or(p.version, "unknown"@), bar, c);
    lemma_count_concat("| "@ + p.name + bar + text_or(p.version, "unknown"@) + bar, p.source.name(), c);
    lemma_count_concat("| "@ + p.name + bar + text_or(p.version, "unknown"@) + bar + p.source.name(), bar, c);
    lemma_count_concat("| "@ + p.name + bar + text_or(p.version, "unknown"@) + bar + p.source.name() + bar, p.install_path, c);
    lemma_count_concat("| "@ + p.name + bar + text_or(p.version, "unknown"@) + bar + p.source.name() + bar + p.install_path, bar, c);
    lemma_count_concat("| "@ + p.name + bar + text_or(p.version, "unknown"@) + bar + p.source.name() + bar + p.install_path + bar, size_text(p.size), c);
    lemma_count_concat(head, " |\n"@, c);
    let tail = " |\n"@;
    lemma_count_absent(tail.drop_last(), c);
    assert(count_char(tail, c) == count_char(tail.drop_last(), c) + 1);
}

/// The rows of a concatenation are the rows of each part.
proof fn lemma_rows_concat(a: Seq<Package>, b: Seq<Package>)
    ensures
        markdown_rows(a + b) == markdown_rows(a) + markdown_rows(b),
    decreases b.len(),
{
    if b.len() == 0 {
        assert(a + b =~= a);
        assert(markdown_rows(a) + Seq::<char>::empty() =~= markdown_rows(a));
    } else {
        lemma_rows_concat(a, b.drop_last());
        assert((a + b).drop_last() =~= a + b.drop_last());
        assert((a + b).last() == b.last());
        assert(markdown_rows(a) + markdown_rows(b.drop_last()) + markdown_row(b.last()@) =~= markdown_rows(a) + (
        markdown_rows(b.drop_last()) + markdown_row(b.last()@)));
    }
}

/// The table holds one line per package.
proof fn lemma_rows_count(ps: Seq<Package>)
    requires
        forall|i: int| 0 <= i < ps.len() ==> fields_one_line(#[trigger] ps[i]@),
    ensures
        count_char(markdown_rows(ps), '\n') == ps.len(),
    decreases ps.len(),
{
    if ps.len() > 0 {
        let q = ps.drop_last();
        assert forall|i: int| 0 <= i < q.len() implies fields_one_line(#[trigger] q[i]@) by {
            assert(q[i] == ps[i]);
        }
        lemma_rows_count(q);
        assert(ps[ps.len() - 1] == ps.last());
        lemma_row_one_line_feed(ps.last()@);
        lemma_count_concat(markdown_rows(q), markdown_row(ps.last()@), '\n');
    }
}

/// The Markdown table has one row per package, in order: when no package's name,
/// version or location holds a line feed, the rows hold exactly one line feed per
/// package, and the row of the `i`-th package starts right after the `i`-th line feed.
pub proof fn law_markdown_one_row_per_package(ps: Seq<Package>)
    requires
        forall|i: int| 0 <= i < ps.len() ==> fields_one_line(#[trigger] ps[i]@),
    ensures
        count_char(markdown_rows(ps), '\n') == ps.len(),
        forall|i: int| 0 <= i < ps.len() ==> exists|k: int|
            0 <= k && k + markdown_row((#[trigger] ps[i])@).len() <= markdown_rows(ps).len() && markdown_rows(ps).subrange(
                k,
                k + markdown_row(ps[i]@).len(),
            ) == markdown_row(ps[i]@) && count_char(markdown_rows(ps).take(k), '\n') == i,
{
    lemma_rows_count(ps);
    assert forall|i: int| 0 <= i < ps.len() implies exists|k: int|
        0 <= k && k + markdown_row((#[trigger] ps[i])@).len() <= markdown_rows(ps).len() && markdown_rows(ps).subrange(
            k,
            k + markdown_row(ps[i]@).len(),
        ) == markdown_row(ps[i]@) && count_char(markdown_rows(ps).take(k), '\n') == i by {
        let a = ps.take(i);
        let one = seq![ps[i]];
        let rest = ps.skip(i + 1);
        assert(ps =~= a + one + rest);
        lemma_rows_concat(a + one, rest);
        lemma_rows_concat(a, one);
        assert(one.drop_last() =~= Seq::<Package>::empty());
        assert(markdown_rows(one.drop_last()) == Seq::<char>::empty());
        assert(one.last() == ps[i]);
        assert(Seq::<char>::empty() + markdown_row(ps[i]@) =~= markdown_row(ps[i]@));
        assert(markdown_rows(one) == markdown_row(ps[i]@));
        let pre = markdown_rows(a);
        let row = markdown_row(ps[i]@);
        let whole = markdown_rows(ps);
        assert(whole == pre + row + markdown_rows(rest));
        let k = pre.len() as int;
        assert(whole.subrange(k, k + row.len()) =~= row);
        assert(whole.take(k) =~= pre);
        assert forall|j: int| 0 <= j < a.len() implies fields_one_line(#[trigger] a[j]@) by {
            assert(a[j] == ps[j]);
        }
        lemma_rows_count(a);
    }
}

/// The heading of the package table.
pub open spec fn markdown_header() -> Seq<char> {
    "# Installed Packages\n\n"@ + "| Name | Version | Source | Location | Size |\n"@
        + "|------|---------|--------|----------|------|\n"@
}

/// The packages as a Markdown table: name, version, source, location and size of each.
#[verifier::rlimit(40)]
pub fn packages_to_markdown(packages: &[Package]) -> (md: String)
    ensures
        md@ == markdown_header() + markdown_rows(packages@),
{
    let mut md = String::new();
    push_str(&mut md, "# Installed Packages\n\n");
    push_str(&mut md, "| Name | Version | Source | Location | Size |\n");
    push_str(&mut md, "|------|---------|--------|----------|------|\n");
    let mut i: usize = 0;
    assert(packages@.take(0) =~= Seq::<Package>::empty());
    while i < packages.len()
        invariant
            i <= packages@.len(),
            md@ == markdown_header() + markdown_rows(packages@.take(i as int)),
        decreases packages@.len() - i,
    {
        let p = &packages[i];
        let ghost before = md@;
        push_str(&mut md, "| ");
        push_str(&mut md, p.name.as_str());
        push_str(&mut md, " | ");
        push_opt(&mut md, &p.version, "unknown");
        push_str(&mut md, " | ");
        let src = p.source.to_string();
        push_str(&mut md, src.as_str());
        push_str(&mut md, " | ");
        push_str(&mut md, p.install_path.as_str());
        push_str(&mut md, " | ");
        push_size(&mut md, p.size);
        push_str(&mut md, " |\n");
        assert(packages@.take(i + 1).drop_last() =~= packages@.take(i as int));
        assert(md@ =~= before + markdown_row(p@));
        i = i + 1;
    }
    assert(packages@.take(packages@.len() as int) =~= packages@);
    md
}

/// The UTC date ("YYYY-MM-DD") of a Unix timestamp as chrono formats it, when the
/// timestamp is within chrono's range.
pub uninterp spec fn utc_date_text(ts: int) -> Option<Seq<char>>;

/// Calls `chrono::DateTime::from_timestamp(ts, 0)` and formats the date with `%Y-%m-%d`;
/// the result is `utc_date_text(ts)`.
#[verifier::external_body]
fn utc_date(ts: i64) -> (r: Option<String>)
    ensures
        opt_view(r) == utc_date_text(ts as int),
{
    chrono::DateTime::from_timestamp(ts, 0).map(|dt| dt.format("%Y-%m-%d").to_string())
}

/// A date column: the date of a timestamp, "unknown" when out of range, `none` when absent.
pub open spec fn date_text(ts: Option<i64>, none: Seq<char>) -> Seq<char> {
    match ts {
        Some(t) => text_or(utc_date_text(t as int), "unknown"@),
        None => none,
    }
}

/// Appends a date column.
fn push_date(s: &mut String, ts: Option<i64>, none: &str)
    ensures
        final(s)@ == old(s)@ + date_text(ts, none@),
{
    match ts {
        Some(t) => {
            let d = utc_date(t);
            push_opt(s, &d, "unknown");
        },
        None => push_str(s, none),
    }
}

/// One line of the CSV export.
pub open spec fn csv_row(p: PackageModel) -> Seq<char> {
    p.name + ","@ + text_or(p.version, "unknown"@) + ","@ + p.source.name() + ","@ + p.install_path
        + ","@ + size_text(p.size) + ","@ + date_text(p.installed_date, "unknown"@) + ","@
        + date_text(p.last_used, "never"@) + "\n"@
}

/// The lines of the CSV export, in order.
pub open spec fn csv_rows(ps: Seq<Package>) -> Seq<char>
    decreases ps.len(),
{
    if ps.len() == 0 {
        Seq::empty()
    } else {
        csv_rows(ps.drop_last()) + csv_row(ps.last()@)
    }
}

/// The packages as CSV: a header line, then name, version, source, location, size,
/// install date and last use of each.
#[verifier::rlimit(40)]
pub fn packages_to_csv(packages: &[Package]) -> (csv: String)
    ensures
        csv@ == "Name,Version,Source,Location,Size,InstallDate,LastUsed\n"@ + csv_rows(packages@),
{
    let mut csv = owned("Name,Version,Source,Location,Size,InstallDate,LastUsed\n");
    let mut i: usize = 0;
    assert(packages@.take(0) =~= Seq::<Package>::empty());
    while i < packages.len()
        invariant
            i <= packages@.len(),
            csv@ == "Name,Version,Source,Location,Size,InstallDate,LastUsed\n"@ + csv_rows(
                packages@.take(i as int),
            ),
        decreases packages@.len() - i,
    {
        let p = &packages[i];
        let ghost before = csv@;
        push_str(&mut csv, p.name.as_str());
        push_str(&mut csv, ",");
        push_opt(&mut csv, &p.version, "unknown");
        push_str(&mut csv, ",");
        let src = p.source.to_string();
        push_str(&mut csv, src.as_str());
        push_str(&mut csv, ",");
        push_str(&mut csv, p.install_path.as_str());
        push_str(&mut csv, ",");
        push_size(&mut csv, p.size);
        push_str(&mut csv, ",");
        push_date(&mut csv, p.installed_date, "unknown");
        push_str(&mut csv, ",");
        push_date(&mut csv, p.last_used, "never");
        push_str(&mut csv, "\n");
        assert(packages@.take(i + 1).drop_last() =~= packages@.take(i as int));
        assert(csv@ =~= before + csv_row(p@));
        i = i + 1;
    }
    assert(packages@.take(packages@.len() as int) =~= packages@);
    csv
}

/// The sizes that are known, in order.
pub open spec fn known_sizes(ps: Seq<Package>) -> Seq<u64>
    decreases ps.len(),
{
    if ps.len() == 0 {
        Seq::empty()
    } else {
        match ps.last().size {
            Some(s) => known_sizes(ps.drop_last()).push(s),
            None => known_sizes(ps.drop_last()),
        }
    }
}

/// The sum of some sizes.
pub open spec fn sum_sizes(s: Seq<u64>) -> nat
    decreases s.len(),
{
    if s.len() == 0 {
        0
    } else {
        sum_sizes(s.drop_last()) + (s.last() as nat)
    }
}

/// The middle of sorted sizes (the mean of the two middle ones for an even count, rounded down).
pub open spec fn median_of(t: Seq<u64>) -> nat {
    let n = t.len() as int;
    if n % 2 == 0 {
        ((t[n / 2 - 1] + t[n / 2]) / 2) as nat
    } else {
        t[n / 2] as nat
    }
}

/// "Total: .., Avg: .., Median: .., Min: .., Max: .." over the known sizes.
pub open spec fn size_summary_text(ps: Seq<Package>) -> Seq<char> {
    let s = known_sizes(ps);
    if s.len() == 0 {
        "No size data available"@
    } else {
        let t = s.sort_by(size_leq());
        let total = sum_sizes(s);
        "Total: "@ + format_size_spec(total) + ", Avg: "@ + format_size_spec(total / s.len()) + ", Median: "@
            + format_size_spec(median_of(t)) + ", Min: "@ + format_size_spec(t[0] as nat) + ", Max: "@
            + format_size_spec(t[t.len() - 1] as nat)
    }
}

/// Summarises the known package sizes: total, average, median, smallest and largest.
pub fn get_package_size_summary(packages: &[Package]) -> (s: String)
    requires
        sum_sizes(known_sizes(packages@)) <= u64::MAX,
    ensures
        s@ == size_summary_text(packages@),
{
    let mut sizes: Vec<u64> = Vec::new();
    let mut total: u64 = 0;
    let mut i: usize = 0;
    while i < packages.len()
        invariant
            i <= packages@.len(),
            sizes@ == known_sizes(packages@.take(i as int)),
            total == sum_sizes(sizes@),
            sum_sizes(known_sizes(packages@)) <= u64::MAX,
        decreases packages@.len() - i,
    {
        assert(packages@.take(i + 1).drop_last() =~= packages@.take(i as int));
        if let Some(sz) = packages[i].size {
            proof {
                lemma_known_sizes_prefix(packages@, i + 1);
                assert(sizes@.push(sz).drop_last() =~= sizes@);
            }
            sizes.push(sz);
            total = total + sz;
        }
        i = i + 1;
    }
    assert(packages@.take(packages@.len() as int) =~= packages@);
    if sizes.len() == 0 {
        return owned("No size data available");
    }
    let t = sort_sizes(&sizes);
    proof {
        crate::sort::lemma_size_leq_total();
        sizes@.lemma_sort_by_ensures(size_leq());
        vstd::seq_lib::to_multiset_len(sizes@);
        vstd::seq_lib::to_multiset_len(t@);
    }
    let count = sizes.len();
    let avg = total / (count as u64);
    let min = t[0];
    let max = t[count - 1];
    let median: u64 = if count % 2 == 0 {
        let a = t[count / 2 - 1];
        let b = t[count / 2];
        a / 2 + b / 2 + (a % 2 + b % 2) / 2
    } else {
        t[count / 2]
    };
    let mut s = owned("Total: ");
    let x = format_size(total);
    push_str(&mut s, x.as_str());
    push_str(&mut s, ", Avg: ");
    let x = format_size(avg);
    push_str(&mut s, x.as_str());
    push_str(&mut s, ", Median: ");
    let x = format_size(median);
    push_str(&mut s, x.as_str());
    push_str(&mut s, ", Min: ");
    let x = format_size(min);
    push_str(&mut s, x.as_str());
    push_str(&mut s, ", Max: ");
    let x = format_size(max);
    push_str(&mut s, x.as_str());
    s
}

/// The known sizes of a prefix never sum to more than those of the whole.
pub proof fn lemma_known_sizes_prefix(ps: Seq<Package>, i: int)
    requires
        0 <= i <= ps.len(),
    ensures
        sum_sizes(known_sizes(ps.take(i))) <= sum_sizes(known_sizes(ps)),
    decreases ps.len() - i,
{
    if i < ps.len() {
        lemma_known_sizes_prefix(ps, i + 1);
        let a = ps.take(i);
        let b = ps.take(i + 1);
        assert(b.drop_last() =~= a);
        match b.last().size {
            Some(x) => {
                assert(known_sizes(b) == known_sizes(a).push(x));
                assert(known_sizes(a).push(x).drop_last() =~= known_sizes(a));
            },
            None => {},
        }
    } else {
        assert(ps.take(i) =~= ps);
    }
}

/// How many packages list dependencies.
pub open spec fn count_with_deps(ps: Seq<Package>) -> nat
    decreases ps.len(),
{
    if ps.len() == 0 {
        0
    } else {
        count_with_deps(ps.drop_last()) + if ps.last().dependencies is Some { 1nat } else { 0nat }
    }
}

/// How many dependencies the packages list in all.
pub open spec fn total_deps(ps: Seq<Package>) -> nat
    decreases ps.len(),
{
    if ps.len() == 0 {
        0
    } else {
        total_deps(ps.drop_last()) + match ps.last().dependencies {
            Some(d) => d@.len(),
            None => 0,
        }
    }
}

/// The dependency total of a prefix never exceeds that of the whole.
pub proof fn lemma_total_deps_prefix(ps: Seq<Package>, i: int)
    requires
        0 <= i <= ps.len(),
    ensures
        total_deps(ps.take(i)) <= total_deps(ps),
    decreases ps.len() - i,
{
    if i < ps.len() {
        lemma_total_deps_prefix(ps, i + 1);
        assert(ps.take(i + 1).drop_last() =~= ps.take(i));
    } else {
        assert(ps.take(i) =~= ps);
    }
}

/// At most every package lists dependencies.
pub proof fn lemma_count_with_deps_bound(ps: Seq<Package>)
    ensures
        count_with_deps(ps) <= ps.len(),
    decreases ps.len(),
{
    if ps.len() > 0 {
        lemma_count_with_deps_bound(ps.drop_last());
    }
}

/// "<n> packages have dependencies, <m> total dependencies".
pub fn get_package_dependency_summary(packages: &[Package]) -> (s: String)
    requires
        total_deps(packages@) <= usize::MAX,
    ensures
        s@ == decimal(count_with_deps(packages@)) + " packages have dependencies, "@ + decimal(
            total_deps(packages@),
        ) + " total dependencies"@,
{
    let mut with_deps: usize = 0;
    let mut total: usize = 0;
    let mut i: usize = 0;
    while i < packages.len()
        invariant
            i <= packages@.len(),
            with_deps == count_with_deps(packages@.take(i as int)),
            total == total_deps(packages@.take(i as int)),
            total_deps(packages@) <= usize::MAX,
        decreases packages@.len() - i,
    {
        assert(packages@.take(i + 1).drop_last() =~= packages@.take(i as int));
        proof {
            lemma_total_deps_prefix(packages@, i + 1);
            lemma_count_with_deps_bound(packages@.take(i as int));
        }
        if let Some(d) = &packages[i].dependencies {
            with_deps = with_deps + 1;
            total = total + d.len();
        }
        i = i + 1;
    }
    assert(packages@.take(packages@.len() as int) =~= packages@);
    let mut s = String::new();
    push_u64(&mut s, with_deps as u64);
    push_str(&mut s, " packages have dependencies, ");
    push_u64(&mut s, total as u64);
    push_str(&mut s, " total dependencies");
    s
}

/// Whether a path is safe to act on: it holds neither ".." nor "//".
pub fn is_path_safe(path: &str) -> (b: bool)
    ensures
        b == (!contains_spec(path@, ".."@) && !contains_spec(path@, "//"@)),
{
    let v = chars_of(path);
    let dots = chars_of("..");
    let slashes = chars_of("//");
    !contains_str(&v, &dots) && !contains_str(&v, &slashes)
}

/// The pieces of a path that name something: not empty and not ".".
pub open spec fn named_parts(pieces: Seq<Seq<char>>) -> Seq<Seq<char>>
    decreases pieces.len(),
{
    if pieces.len() == 0 {
        pieces
    } else if pieces.last().len() == 0 || pieces.last() == "."@ {
        named_parts(pieces.drop_last())
    } else {
        named_parts(pieces.drop_last()).push(pieces.last())
    }
}

/// The final name of a path (what `Path::file_name` gives on Unix): its last part, unless
/// that is ".." or there is none.
pub open spec fn file_name_spec(path: Seq<char>) -> Option<Seq<char>> {
    let parts = named_parts(split_spec(path, '/'));
    if parts.len() == 0 || parts.last() == ".."@ {
        None
    } else {
        Some(parts.last())
    }
}

/// The extension of a file name: after its last `.`, unless the name has no `.` or its
/// only `.` is the first character.
pub open spec fn extension_of(name: Seq<char>) -> Option<Seq<char>> {
    let pieces = split_spec(name, '.');
    if pieces.len() < 2 || (pieces.len() == 2 && pieces[0].len() == 0) {
        None
    } else {
        Some(pieces.last())
    }
}

/// The extension of the final name of a path (what `Path::extension` gives).
pub fn get_file_extension(path: &str) -> (r: Option<String>)
    ensures
        opt_view(r) == match file_name_spec(path@) {
            Some(n) => extension_of(n),
            None => None,
        },
{
    proof {
        reveal_strlit(".");
        reveal_strlit("..");
    }
    let pieces = split_on(path, '/');
    let mut named: Vec<String> = Vec::new();
    let mut i: usize = 0;
    while i < pieces.len()
        invariant
            i <= pieces@.len(),
            views_of(named@) == named_parts(views_of(pieces@).take(i as int)),
        decreases pieces@.len() - i,
    {
        let ghost before = named@;
        assert(views_of(pieces@).take(i + 1).drop_last() =~= views_of(pieces@).take(i as int));
        assert(views_of(pieces@).take(i + 1).last() == pieces@[i as int]@);
        let piece = pieces[i].as_str();
        let pv = chars_of(piece);
        let is_dot = pv.len() == 1 && pv[0] == '.';
        assert(is_dot == (piece@ == "."@)) by {
            reveal_strlit(".");
            if piece@ == "."@ {
                assert(pv@.len() == 1);
            }
            if is_dot {
                assert(pv@ =~= "."@);
            }
        }
        if !(pv.len() == 0 || is_dot) {
            named.push(pieces[i].clone());
            assert(views_of(named@) =~= views_of(before).push(piece@));
        }
        i = i + 1;
    }
    assert(views_of(pieces@).take(pieces@.len() as int) =~= views_of(pieces@));
    if named.len() == 0 {
        return None;
    }
    let last = &named[named.len() - 1];
    assert(last@ == views_of(named@).last());
    let lv = chars_of(last.as_str());
    if lv.len() == 2 && lv[0] == '.' && lv[1] == '.' {
        assert(last@ =~= ".."@);
        return None;
    }
    assert(last@ != ".."@) by {
        if last@ == ".."@ {
            assert(lv@.len() == 2 && lv@[0] == '.' && lv@[1] == '.');
        }
    }
    let parts = split_on(last.as_str(), '.');
    if parts.len() < 2 {
        return None;
    }
    assert(views_of(parts@)[0] == parts@[0]@);
    if parts.len() == 2 && parts[0].as_str().unicode_len() == 0 {
        return None;
    }
    let ext = parts[parts.len() - 1].clone();
    assert(views_of(parts@).last() == ext@);
    Some(ext)
}

/// Resolves a file name to its package through a file map, trying its stem second.
pub fn resolve_filename_to_package(filename: &str, file_map: &StrMap<String>) -> (r: Option<String>)
    requires
        file_map.wf(),
    ensures
        opt_view(r) == crate::models::lookup_file(file_map.map(), filename@),
{
    let r = crate::models::lookup_file_in(file_map, filename);
    r
}

/// The edge lines of a graph in DOT, in order.
pub open spec fn dot_edges(nodes: Seq<DependencyNode>) -> Seq<char>
    decreases nodes.len(),
{
    if nodes.len() == 0 {
        Seq::empty()
    } else {
        dot_edges(nodes.drop_last()) + "  \""@ + nodes.last().parent@ + "\" -> \""@ + nodes.last().name@
            + "\";\n"@
    }
}

/// The member lines of a cycle cluster.
pub open spec fn dot_members(names: Seq<Seq<char>>) -> Seq<char>
    decreases names.len(),
{
    if names.len() == 0 {
        Seq::empty()
    } else {
        dot_members(names.drop_last()) + "    \""@ + names.last() + "\";\n"@
    }
}

/// The clusters of the first `n` cycles.
pub open spec fn dot_clusters(cycles: Seq<Vec<String>>, n: nat) -> Seq<char>
    decreases n,
{
    if n == 0 || n > cycles.len() {
        Seq::empty()
    } else {
        dot_clusters(cycles, (n - 1) as nat) + "  subgraph cluster_cycle_"@ + decimal((n - 1) as nat)
            + " {\n"@ + "    color=red;\n"@ + "    label=\"Cycle\";\n"@ + dot_members(
            views_of(cycles[n - 1]@),
        ) + "  }\n"@
    }
}

/// A dependency graph in Graphviz DOT: one edge per node, and a red cluster per cycle.
pub open spec fn dot_text(g: DependencyGraph) -> Seq<char> {
    "digraph Dependencies {\n"@ + "  rankdir=LR;\n"@ + "  node [shape=box];\n\n"@ + dot_edges(
        g.dependencies@,
    ) + if g.cycles@.len() > 0 {
        "\n  // Cycles detected\n"@ + dot_clusters(g.cycles@, g.cycles@.len())
    } else {
        Seq::empty()
    } + "}\n"@
}

/// Appends the cluster of cycle number `c`.
fn push_cluster(dot: &mut String, c: usize, cycle: &Vec<String>)
    ensures
        final(dot)@ == old(dot)@ + ("  subgraph cluster_cycle_"@ + decimal(c as nat) + " {\n"@
            + "    color=red;\n"@ + "    label=\"Cycle\";\n"@ + dot_members(views_of(cycle@))
            + "  }\n"@),
{
    let ghost before = dot@;
    push_str(dot, "  subgraph cluster_cycle_");
    push_u64(dot, c as u64);
    push_str(dot, " {\n");
    push_str(dot, "    color=red;\n");
    push_str(dot, "    label=\"Cycle\";\n");
    let ghost mid = dot@;
    let mut k: usize = 0;
    assert(views_of(cycle@).take(0) =~= Seq::<Seq<char>>::empty());
    while k < cycle.len()
        invariant
            k <= cycle@.len(),
            dot@ == mid + dot_members(views_of(cycle@).take(k as int)),
        decreases cycle@.len() - k,
    {
        let ghost b2 = dot@;
        push_str(dot, "    \"");
        push_str(dot, cycle[k].as_str());
        push_str(dot, "\";\n");
        assert(views_of(cycle@).take(k + 1).drop_last() =~= views_of(cycle@).take(k as int));
        assert(views_of(cycle@).take(k + 1).last() == cycle@[k as int]@);
        assert(dot@ =~= b2 + ("    \""@ + cycle@[k as int]@ + "\";\n"@));
        k = k + 1;
    }
    assert(views_of(cycle@).take(cycle@.len() as int) =~= views_of(cycle@));
    push_str(dot, "  }\n");
    assert(dot@ =~= before + ("  subgraph cluster_cycle_"@ + decimal(c as nat) + " {\n"@
        + "    color=red;\n"@ + "    label=\"Cycle\";\n"@ + dot_members(views_of(cycle@))
        + "  }\n"@));
}

/// Renders a dependency graph in Graphviz DOT.
pub fn graph_to_dot(graph: &DependencyGraph) -> (dot: String)
    ensures
        dot@ == dot_text(*graph),
{
    let mut dot = owned("digraph Dependencies {\n");
    push_str(&mut dot, "  rankdir=LR;\n");
    push_str(&mut dot, "  node [shape=box];\n\n");
    let ghost head = dot@;
    let mut i: usize = 0;
    assert(graph.dependencies@.take(0) =~= Seq::<DependencyNode>::empty());
    while i < graph.dependencies.len()
        invariant
            i <= graph.dependencies@.len(),
            dot@ == head + dot_edges(graph.dependencies@.take(i as int)),
        decreases graph.dependencies@.len() - i,
    {
        let node = &graph.dependencies[i];
        let ghost before = dot@;
        push_str(&mut dot, "  \"");
        push_str(&mut dot, node.parent.as_str());
        push_str(&mut dot, "\" -> \"");
        push_str(&mut dot, node.name.as_str());
        push_str(&mut dot, "\";\n");
        assert(graph.dependencies@.take(i + 1).drop_last() =~= graph.dependencies@.take(i as int));
        assert(dot@ =~= before + ("  \""@ + node.parent@ + "\" -> \""@ + node.name@ + "\";\n"@));
        i = i + 1;
    }
    assert(graph.dependencies@.take(graph.dependencies@.len() as int) =~= graph.dependencies@);
    let ghost edges = dot@;
    if graph.cycles.len() > 0 {
        push_str(&mut dot, "\n  // Cycles detected\n");
        let ghost start = dot@;
        let mut c: usize = 0;
        while c < graph.cycles.len()
            invariant
                c <= graph.cycles@.len(),
                dot@ == start + dot_clusters(graph.cycles@, c as nat),
            decreases graph.cycles@.len() - c,
        {
            let ghost before = dot@;
            push_cluster(&mut dot, c, &graph.cycles[c]);
            assert(dot@ =~= start + dot_clusters(graph.cycles@, (c + 1) as nat));
            c = c + 1;
        }
    }
    push_str(&mut dot, "}\n");
    dot
}


/// Whether a file with permission bits `mode` can be run: it is a regular file and some
/// execute bit (owner, group or other) is set.
pub fn is_executable_mode(is_file: bool, mode: u32) -> (b: bool)
    ensures
        b == (is_file && (mode & 0o111u32) != 0),
{
    is_file && (mode & 0o111u32) != 0
}

/// The SHA-256 digest of `data` (`sha2::Sha256::digest`).
pub uninterp spec fn sha256_of(data: Seq<u8>) -> Seq<u8>;

/// Hashes `data` with `sha2::Sha256::digest`; the digest has 32 bytes.
#[verifier::external_body]
fn sha256(data: &[u8]) -> (r: Vec<u8>)
    ensures
        r@ == sha256_of(data@),
        r@.len() == 32,
{
    <sha2::Sha256 as sha2::Digest>::digest(data).to_vec()
}

/// The lower-case hexadecimal digit of `d` (`d < 16`).
pub open spec fn hex_digit(d: nat) -> char {
    if d < 10 {
        (48 + d) as char
    } else {
        (87 + d) as char
    }
}

/// The bytes as lower-case hexadecimal text, two digits per byte.
pub open spec fn hex_text(bytes: Seq<u8>) -> Seq<char>
    decreases bytes.len(),
{
    if bytes.len() == 0 {
        Seq::empty()
    } else {
        hex_text(bytes.drop_last()).push(hex_digit(bytes.last() as nat / 16)).push(hex_digit(bytes.last() as nat % 16))
    }
}

/// The lower-case hexadecimal digit of `d`.
fn hex_char(d: u8) -> (c: char)
    requires
        d < 16,
    ensures
        c == hex_digit(d as nat),
{
    if d < 10 {
        (48u8 + d) as char
    } else {
        (87u8 + d) as char
    }
}

/// The checksum of a file's contents: the SHA-256 digest in lower-case hexadecimal.
pub fn compute_file_checksum(data: &[u8]) -> (s: String)
    ensures
        s@ == hex_text(sha256_of(data@)),
        s@.len() == 64,
{
    let digest = sha256(data);
    let mut s = String::new();
    let mut i: usize = 0;
    assert(digest@.take(0) =~= Seq::<u8>::empty());
    while i < digest.len()
        invariant
            i <= digest@.len(),
            s@ == hex_text(digest@.take(i as int)),
            s@.len() == 2 * i,
        decreases digest@.len() - i,
    {
        let b = digest[i];
        push_char(&mut s, hex_char(b / 16));
        push_char(&mut s, hex_char(b % 16));
        assert(digest@.take(i + 1).drop_last() =~= digest@.take(i as int));
        assert(digest@.take(i + 1).last() == b);
        i = i + 1;
    }
    assert(digest@.take(digest@.len() as int) =~= digest@);
    s
}

/// The position of the first `c` in `s` (`s.len()` when there is none).
pub open spec fn char_pos(s: Seq<char>, c: char) -> int
    decreases s.len(),
{
    if s.len() == 0 || s[0] == c {
        0
    } else {
        1 + char_pos(s.drop_first(), c)
    }
}

/// `m` with the file names of `paths` owned by `pkg`: the last `/`-separated part of
/// each trimmed path, where not empty.
pub open spec fn owners_of_paths(m: Map<Seq<char>, Seq<char>>, pkg: Seq<char>, paths: Seq<Seq<char>>) -> Map<
    Seq<char>,
    Seq<char>,
>
    decreases paths.len(),
{
    if paths.len() == 0 {
        m
    } else {
        let m1 = owners_of_paths(m, pkg, paths.drop_last());
        let f = split_spec(trim_spec(paths.last()), '/').last();
        if f.len() > 0 {
            m1.insert(f, pkg)
        } else {
            m1
        }
    }
}

/// The owners of files read from `dpkg -S` lines `package: path, path, ...` (a later
/// line wins for a file name given twice).
pub open spec fn owners_of_lines(ls: Seq<Seq<char>>) -> Map<Seq<char>, Seq<char>>
    decreases ls.len(),
{
    if ls.len() == 0 {
        Map::empty()
    } else {
        let m = owners_of_lines(ls.drop_last());
        let line = ls.last();
        let k = char_pos(line, ':');
        if k >= line.len() {
            m
        } else {
            owners_of_paths(m, trim_spec(line.take(k)), split_spec(line.skip(k + 1), ','))
        }
    }
}

/// A map of names to strings, as names to sequences of characters.
pub open spec fn text_map(m: Map<Seq<char>, String>) -> Map<Seq<char>, Seq<char>> {
    Map::new(|k: Seq<char>| m.contains_key(k), |k: Seq<char>| m[k]@)
}

/// The position of the first `c` in `v`.
fn find_char(v: &Vec<char>, c: char) -> (k: usize)
    ensures
        k == char_pos(v@, c),
        k <= v@.len(),
{
    let mut i: usize = 0;
    assert(v@.skip(0) =~= v@);
    while i < v.len() && v[i] != c
        invariant
            i <= v@.len(),
            char_pos(v@, c) == i + char_pos(v@.skip(i as int), c),
        decreases v@.len() - i,
    {
        assert(v@.skip(i as int)[0] == v@[i as int]);
        assert(v@.skip(i as int).drop_first() =~= v@.skip(i + 1));
        i = i + 1;
    }
    if i < v.len() {
        assert(v@.skip(i as int)[0] == v@[i as int]);
    }
    i
}

/// The map from file names to the packages owning them, read from what `dpkg -S '/*'`
/// prints.
#[verifier::rlimit(30)]
pub fn build_file_package_map(dpkg_out: &str) -> (r: StrMap<String>)
    ensures
        r.wf(),
        text_map(r.map()) == owners_of_lines(lines_spec(dpkg_out@)),
{
    let lines = lines_of(dpkg_out);
    let ghost lv = views_of(lines@);
    let mut map: StrMap<String> = StrMap::new();
    let mut i: usize = 0;
    assert(text_map(map.map()) =~= Map::<Seq<char>, Seq<char>>::empty());
    while i < lines.len()
        invariant
            i <= lines@.len(),
            lv == views_of(lines@),
            lv == lines_spec(dpkg_out@),
            map.wf(),
            text_map(map.map()) == owners_of_lines(lv.take(i as int)),
        decreases lines@.len() - i,
    {
        let v = chars_of(lines[i].as_str());
        assert(lv.take(i + 1).drop_last() =~= lv.take(i as int));
        assert(lv.take(i + 1).last() == v@);
        let k = find_char(&v, ':');
        if k < v.len() {
            let head = string_of_range(&v, 0, k);
            let pkg = trim(head.as_str());
            let rest = string_of_range(&v, k + 1, v.len());
            assert(v@.subrange(0, k as int) =~= v@.take(k as int));
            assert(v@.subrange(k + 1, v@.len() as int) =~= v@.skip(k + 1));
            let paths = split_on(rest.as_str(), ',');
            let ghost pv = views_of(paths@);
            let ghost m0 = text_map(map.map());
            let mut j: usize = 0;
            assert(pv.take(0) =~= Seq::<Seq<char>>::empty());
            while j < paths.len()
                invariant
                    j <= paths@.len(),
                    pv == views_of(paths@),
                    map.wf(),
                    text_map(map.map()) == owners_of_paths(m0, pkg@, pv.take(j as int)),
                decreases paths@.len() - j,
            {
                let t = trim(paths[j].as_str());
                let segs = split_on(t.as_str(), '/');
                let f = &segs[segs.len() - 1];
                assert(pv.take(j + 1).drop_last() =~= pv.take(j as int));
                assert(pv.take(j + 1).last() == paths@[j as int]@);
                assert(views_of(segs@).last() == f@);
                let fc = chars_of(f.as_str());
                if fc.len() > 0 {
                    let ghost before = text_map(map.map());
                    map.insert(f.clone(), pkg.clone());
                    assert(text_map(map.map()) =~= before.insert(f@, pkg@));
                }
                j = j + 1;
            }
            assert(pv.take(pv.len() as int) =~= pv);
        }
        i = i + 1;
    }
    assert(lv.take(lv.len() as int) =~= lv);
    map
}

} // verus!
