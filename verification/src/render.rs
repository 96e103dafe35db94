use vstd::prelude::*;
use crate::score::FileMetrics;

verus! {

/// The decimal digit character for one digit value.
pub open spec fn spec_digit_char(d: nat) -> char
    recommends
        d < 10,
{
    (48 + d) as char
}

/// The usual decimal rendering of a number, most significant digit first,
/// with no leading zeroes (zero itself is a single digit).
pub open spec fn spec_decimal(n: nat) -> Seq<char>
    decreases n,
{
    if n < 10 {
        seq![spec_digit_char(n)]
    } else {
        spec_decimal(n / 10).push(spec_digit_char(n % 10))
    }
}

/// A count of hundredths rendered with exactly two decimal places, the way
/// every numeric column of the reports shows fractional values.
pub open spec fn spec_format_centi(c: nat) -> Seq<char> {
    spec_decimal(c / 100) + seq!['.', spec_digit_char((c % 100) / 10), spec_digit_char((c % 100) % 10)]
}

/// A count of millionths rendered to two decimal places, rounding half up.
pub open spec fn spec_format_micro(m: nat) -> Seq<char> {
    spec_format_centi((m + 5000) / 10000)
}

fn digit_str(d: u64) -> (r: &'static str)
    requires
        d < 10,
    ensures
        r@ =~= seq![spec_digit_char(d as nat)],
{
    proof {
        reveal_strlit("0");
        reveal_strlit("1");
        reveal_strlit("2");
        reveal_strlit("3");
        reveal_strlit("4");
        reveal_strlit("5");
        reveal_strlit("6");
        reveal_strlit("7");
        reveal_strlit("8");
        reveal_strlit("9");
    }
    match d {
        0 => "0",
        1 => "1",
        2 => "2",
        3 => "3",
        4 => "4",
        5 => "5",
        6 => "6",
        7 => "7",
        8 => "8",
        _ => "9",
    }
}

/// Render a number in decimal.
pub fn format_u64(n: u64) -> (s: String)
    ensures
        s@ == spec_decimal(n as nat),
    decreases n,
{
    if n < 10 {
        String::from_str(digit_str(n))
    } else {
        let mut s = format_u64(n / 10);
        s.append(digit_str(n % 10));
        proof {
            assert(s@ =~= spec_decimal(n as nat));
        }
        s
    }
}

/// Render a count of hundredths with two decimal places.
pub fn format_centi(c: u64) -> (s: String)
    ensures
        s@ == spec_format_centi(c as nat),
{
    let mut s = format_u64(c / 100);
    let rest = c % 100;
    s.append(".");
    s.append(digit_str(rest / 10));
    s.append(digit_str(rest % 10));
    proof {
        reveal_strlit(".");
        assert(s@ =~= spec_format_centi(c as nat));
    }
    s
}

/// Render a count of millionths with two decimal places, rounding half up.
pub fn format_micro(m: u64) -> (s: String)
    requires
        m + 5000 <= u64::MAX,
    ensures
        s@ == spec_format_micro(m as nat),
{
    format_centi((m + 5000) / 10000)
}

/// The column titles of every report, in order.
pub fn report_header() -> (r: Vec<String>)
    ensures
        r@.len() == 5,
        r@[0]@ == "Arquivo"@,
        r@[1]@ == "Churn"@,
        r@[2]@ == "Complexidade"@,
        r@[3]@ == "Autores"@,
        r@[4]@ == "Score"@,
{
    let mut v: Vec<String> = Vec::new();
    v.push(String::from_str("Arquivo"));
    v.push(String::from_str("Churn"));
    v.push(String::from_str("Complexidade"));
    v.push(String::from_str("Autores"));
    v.push(String::from_str("Score"));
    v
}

/// The five display fields of one ranked record: path, churn, size with two
/// decimals, author count, and score with two decimals.
pub open spec fn spec_row_fields(m: FileMetrics) -> Seq<Seq<char>> {
    seq![
        m.path@,
        spec_decimal(m.churn as nat),
        spec_format_centi(m.complexity_centi as nat),
        spec_decimal(m.authors as nat),
        spec_format_micro(m.score_micro as nat),
    ]
}

/// Render one ranked record into its five display fields.
pub fn row_fields(m: &FileMetrics) -> (r: Vec<String>)
    requires
        m.score_micro + 5000 <= u64::MAX,
    ensures
        r@.len() == 5,
        forall|i: int| 0 <= i < 5 ==> (#[trigger] r@[i])@ == spec_row_fields(*m)[i],
{
    let mut v: Vec<String> = Vec::new();
    v.push(m.path.clone());
    v.push(format_u64(m.churn as u64));
    v.push(format_centi(m.complexity_centi));
    v.push(format_u64(m.authors as u64));
    v.push(format_micro(m.score_micro));
    v
}

/// One row of the Markdown table.
pub open spec fn spec_md_row(m: FileMetrics) -> Seq<char> {
    "| "@ + m.path@ + " | "@ + spec_decimal(m.churn as nat) + " | "@ + spec_format_centi(
        m.complexity_centi as nat,
    ) + " | "@ + spec_decimal(m.authors as nat) + " | "@ + spec_format_micro(
        m.score_micro as nat,
    ) + " |\n"@
}

/// The rows of the Markdown table, in ranking order.
pub open spec fn spec_md_rows(s: Seq<FileMetrics>) -> Seq<char>
    decreases s.len(),
{
    if s.len() == 0 {
        Seq::empty()
    } else {
        spec_md_rows(s.drop_last()) + spec_md_row(s.last())
    }
}

/// The whole Markdown report: title, table header, and one row per record.
pub open spec fn spec_markdown(s: Seq<FileMetrics>) -> Seq<char> {
    "# Análise de Hotspots\n\n"@ + "| Arquivo | Churn | Complexidade | Autores | Score |\n"@
        + "|---------|-------|--------------|---------|-------|\n"@ + spec_md_rows(s)
}

/// Build the Markdown report for a ranked list.  Writing it anywhere is the
/// caller's business.
pub fn markdown_report(metrics: &Vec<FileMetrics>) -> (s: String)
    requires
        forall|i: int|
            0 <= i < metrics@.len() ==> (#[trigger] metrics@[i]).score_micro + 5000 <= u64::MAX,
    ensures
        s@ == spec_markdown(metrics@),
{
    let mut s = String::from_str("# Análise de Hotspots\n\n");
    s.append("| Arquivo | Churn | Complexidade | Autores | Score |\n");
    s.append("|---------|-------|--------------|---------|-------|\n");
    let ghost header = s@;
    proof {
        assert(spec_md_rows(metrics@.take(0)) =~= Seq::<char>::empty());
        assert(s@ =~= header + spec_md_rows(metrics@.take(0)));
    }
    let mut i: usize = 0;
    while i < metrics.len()
        invariant
            i <= metrics@.len(),
            forall|k: int|
                0 <= k < metrics@.len() ==> (#[trigger] metrics@[k]).score_micro + 5000
                    <= u64::MAX,
            header == "# Análise de Hotspots\n\n"@
                + "| Arquivo | Churn | Complexidade | Autores | Score |\n"@
                + "|---------|-------|--------------|---------|-------|\n"@,
            s@ == header + spec_md_rows(metrics@.take(i as int)),
        decreases metrics@.len() - i,
    {
        let m = &metrics[i];
        s.append("| ");
        s.append(m.path.as_str());
        s.append(" | ");
        let churn_s = format_u64(m.churn as u64);
        s.append(churn_s.as_str());
        s.append(" | ");
        let cx_s = format_centi(m.complexity_centi);
        s.append(cx_s.as_str());
        s.append(" | ");
        let a_s = format_u64(m.authors as u64);
        s.append(a_s.as_str());
        s.append(" | ");
        let sc_s = format_micro(m.score_micro);
        s.append(sc_s.as_str());
        s.append(" |\n");
        proof {
            assert(metrics@.take(i + 1).drop_last() =~= metrics@.take(i as int));
            assert(metrics@.take(i + 1).last() == metrics@[i as int]);
            assert(s@ =~= header + spec_md_rows(metrics@.take(i + 1)));
        }
        i += 1;
    }
    proof {
        assert(metrics@.take(metrics@.len() as int) =~= metrics@);
        assert(s@ =~= spec_markdown(metrics@));
    }
    s
}

} // verus!
