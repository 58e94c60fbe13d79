//! Multi-factor fitness analysis of a change set: six bounded sub-scores
//! combined into a weighted report with a decision and suggestions.
use vstd::prelude::*;
use crate::SCALE;
use crate::diff::{ChangeView, FileChange, changes_view, lines_view, parse, parse_text, record_size, total_size};
use crate::text::{chars_of, contains, ends_with, has, ends, starts_with};
use crate::diff::{is_space, is_space_exec, second_word, split_words, words_of};
use crate::text::{begins, copy_range};

verus! {

/// Change sets whose records and content lines together number at most this
/// many are analysed; the bound keeps every count within 64 bits.
pub const MAX_RECORD_LINES: u64 = 0xffff_ffff;

pub open spec fn within_limits(cs: Seq<ChangeView>) -> bool {
    total_size(cs) <= MAX_RECORD_LINES
}

pub proof fn lemma_total_size_nonneg(cs: Seq<ChangeView>)
    ensures
        total_size(cs) >= 0,
    decreases cs.len(),
{
    if cs.len() > 0 {
        lemma_total_size_nonneg(cs.drop_last());
    }
}

pub proof fn lemma_total_size_take(cs: Seq<ChangeView>, k: int)
    requires
        0 <= k <= cs.len(),
    ensures
        0 <= total_size(cs.take(k)) <= total_size(cs),
        k < cs.len() ==> total_size(cs.take(k + 1)) == total_size(cs.take(k)) + record_size(cs[k]),
    decreases cs.len(),
{
    if k < cs.len() {
        assert(cs.take(k + 1).drop_last() =~= cs.take(k));
        lemma_total_size_take(cs.drop_last(), k);
        assert(cs.drop_last().take(k) =~= cs.take(k));
    } else {
        assert(cs.take(k) =~= cs);
        lemma_total_size_nonneg(cs);
    }
}

// ---------------------------------------------------------------- file count

/// Sub-score for the number of files, in millionths.
pub open spec fn file_count_score(n: int) -> int {
    if n == 0 {
        0
    } else if 2 <= n <= 5 {
        1_000_000
    } else if n == 1 {
        700_000
    } else if n <= 10 {
        800_000 - (n - 5) * 100_000
    } else {
        300_000
    }
}

// ---------------------------------------------------------------- complexity

pub open spec fn flag(b: bool) -> int {
    if b {
        1
    } else {
        0
    }
}

/// Control-flow, logical and fallible-operation constructs on one added line.
pub open spec fn line_complexity(l: Seq<char>) -> int {
    flag(contains(l, "if "@) || contains(l, "if("@)) + flag(contains(l, "else if"@) || contains(l, "elif"@))
        + flag(contains(l, "for "@) || contains(l, "for("@)) + flag(contains(l, "while "@) || contains(l, "while("@))
        + flag(contains(l, "match "@) || contains(l, "switch"@)) + flag(contains(l, " && "@) || contains(l, " || "@))
        + flag(contains(l, ".unwrap()"@) || contains(l, "?"@))
}

pub open spec fn lines_complexity(ls: Seq<Seq<char>>) -> int
    decreases ls.len(),
{
    if ls.len() == 0 {
        0
    } else {
        lines_complexity(ls.drop_last()) + line_complexity(ls.last())
    }
}

pub open spec fn file_complexity(c: ChangeView) -> int {
    1 + lines_complexity(c.added)
}

pub open spec fn max_complexity(cs: Seq<ChangeView>) -> int
    decreases cs.len(),
{
    if cs.len() == 0 {
        0
    } else {
        let m = max_complexity(cs.drop_last());
        let f = file_complexity(cs.last());
        if f > m {
            f
        } else {
            m
        }
    }
}

/// Sub-score for the most complex file, in millionths.
pub open spec fn complexity_score(cs: Seq<ChangeView>) -> int {
    let m = max_complexity(cs);
    if m > 10 {
        300_000
    } else if m > 7 {
        600_000
    } else if m > 4 {
        800_000
    } else {
        1_000_000
    }
}

// ---------------------------------------------------------------- tests

pub open spec fn is_test_path(p: Seq<char>) -> bool {
    contains(p, "test"@) || contains(p, "spec"@)
}

pub open spec fn is_source_path(p: Seq<char>) -> bool {
    !is_test_path(p) && (ends_with(p, ".rs"@) || ends_with(p, ".py"@) || ends_with(p, ".js"@) || ends_with(p, ".ts"@))
}

pub open spec fn test_files(cs: Seq<ChangeView>, k: int) -> int
    decreases k,
{
    if k <= 0 {
        0
    } else {
        test_files(cs, k - 1) + flag(is_test_path(cs[k - 1].path))
    }
}

pub open spec fn source_files(cs: Seq<ChangeView>, k: int) -> int
    decreases k,
{
    if k <= 0 {
        0
    } else {
        source_files(cs, k - 1) + flag(is_source_path(cs[k - 1].path))
    }
}

/// Sub-score for how tests accompany the change, in millionths.
pub open spec fn test_score(cs: Seq<ChangeView>) -> int {
    let t = test_files(cs, cs.len() as int);
    let s = source_files(cs, cs.len() as int);
    if t > 0 && s > 0 {
        1_000_000
    } else if t > 0 {
        900_000
    } else if s > 0 && s <= 3 {
        600_000
    } else {
        300_000
    }
}

// ---------------------------------------------------------------- line marks

pub const BREAKING_PATTERN: &'static str = r"(?i)(?:BREAKING|deprecated|removed|deleted)";

pub const SECURITY_PATTERN: &'static str = r"(?i)(?:password|secret|token|api[_-]?key|private[_-]?key|auth|credential)";

pub const TODO_PATTERN: &'static str = r"(?i)(?:TODO|FIXME|HACK|XXX|BUG|REFACTOR)";

pub const FUNCTION_PATTERN: &'static str = r"(?m)^(?:fn |def |function |const \w+ = |let \w+ = function)";

/// Whether the regular expression `pattern` matches somewhere in `haystack`
/// (false when the pattern does not compile).
pub uninterp spec fn regex_matches(pattern: Seq<char>, haystack: Seq<char>) -> bool;

/// Relies on `regex::Regex::new` and `regex::Regex::is_match`: whether the
/// compiled pattern matches somewhere in the haystack.
#[verifier::external_body]
fn pattern_matches(pattern: &str, haystack: &str) -> (r: bool)
    ensures
        r == regex_matches(pattern@, haystack@),
{
    match regex::Regex::new(pattern) {
        Ok(re) => re.is_match(haystack),
        Err(_) => false,
    }
}

/// What the pattern matchers found on one added line.
#[derive(Debug, Clone, Copy, PartialEq, Eq, Structural)]
pub struct LineMarks {
    /// A breaking-change marker.
    pub breaking: bool,
    /// A security-sensitive term.
    pub security: bool,
    /// An incomplete-work marker.
    pub todo: bool,
    /// A function definition.
    pub function: bool,
}

pub open spec fn marks_of(l: Seq<char>) -> LineMarks {
    LineMarks {
        breaking: regex_matches(BREAKING_PATTERN@, l),
        security: regex_matches(SECURITY_PATTERN@, l),
        todo: regex_matches(TODO_PATTERN@, l),
        function: regex_matches(FUNCTION_PATTERN@, l),
    }
}

pub open spec fn marks_for(cs: Seq<ChangeView>) -> Seq<Seq<LineMarks>> {
    cs.map_values(|c: ChangeView| c.added.map_values(|l: Seq<char>| marks_of(l)))
}

pub open spec fn marks_view(m: Vec<Vec<LineMarks>>) -> Seq<Seq<LineMarks>> {
    m@.map_values(|v: Vec<LineMarks>| v@)
}

/// One list of marks per record, one mark per added line.
pub open spec fn aligned(cs: Seq<ChangeView>, ms: Seq<Seq<LineMarks>>) -> bool {
    ms.len() == cs.len() && forall|i: int| 0 <= i < cs.len() ==> #[trigger] ms[i].len() == cs[i].added.len()
}

// ---------------------------------------------------------------- risk

pub open spec fn line_risk(l: Seq<char>, m: LineMarks) -> int {
    3 * flag(m.breaking) + 2 * flag(m.security) + flag(m.todo) + 2 * flag(
        contains(l, ".unwrap()"@) || contains(l, "unsafe"@),
    )
}

pub open spec fn lines_risk(ls: Seq<Seq<char>>, ms: Seq<LineMarks>, k: int) -> int
    decreases k,
{
    if k <= 0 {
        0
    } else {
        lines_risk(ls, ms, k - 1) + line_risk(ls[k - 1], ms[k - 1])
    }
}

pub open spec fn file_risk(c: ChangeView, ms: Seq<LineMarks>) -> int {
    lines_risk(c.added, ms, c.added.len() as int) + flag(c.removed.len() > 2 * c.added.len())
}

pub open spec fn risk_units(cs: Seq<ChangeView>, mss: Seq<Seq<LineMarks>>, k: int) -> int
    decreases k,
{
    if k <= 0 {
        0
    } else {
        risk_units(cs, mss, k - 1) + file_risk(cs[k - 1], mss[k - 1])
    }
}

pub open spec fn is_critical_path(p: Seq<char>) -> bool {
    contains(p, "auth"@) || contains(p, "security"@) || contains(p, "payment"@) || contains(p, "database"@)
}

pub open spec fn critical_files(cs: Seq<ChangeView>, k: int) -> int
    decreases k,
{
    if k <= 0 {
        0
    } else {
        critical_files(cs, k - 1) + flag(is_critical_path(cs[k - 1].path))
    }
}

/// Sub-score for risk, high when little is risky, in millionths.
pub open spec fn risk_score(cs: Seq<ChangeView>, mss: Seq<Seq<LineMarks>>) -> int {
    let u = risk_units(cs, mss, cs.len() as int);
    let c = critical_files(cs, cs.len() as int);
    if u == 0 && c == 0 {
        1_000_000
    } else if u <= 2 && c == 0 {
        800_000
    } else if u <= 5 && c <= 1 {
        600_000
    } else if u <= 10 {
        400_000
    } else {
        200_000
    }
}

// ---------------------------------------------------------------- documentation

pub open spec fn trim_end(s: Seq<char>) -> Seq<char>
    decreases s.len(),
{
    if s.len() > 0 && is_space(s.last()) {
        trim_end(s.drop_last())
    } else {
        s
    }
}

pub open spec fn trim_start(s: Seq<char>) -> Seq<char>
    decreases s.len(),
{
    if s.len() > 0 && is_space(s[0]) {
        trim_start(s.drop_first())
    } else {
        s
    }
}

/// A line without white space at either end, as `str::trim` gives it.
pub open spec fn trim(s: Seq<char>) -> Seq<char> {
    trim_start(trim_end(s))
}

pub open spec fn is_doc_line(l: Seq<char>) -> bool {
    let t = trim(l);
    starts_with(t, "//"@) || starts_with(t, "#"@) || starts_with(t, "/**"@) || starts_with(t, "///"@)
        || contains(l, "TODO"@) || contains(l, "NOTE"@)
}

pub open spec fn is_code_line(l: Seq<char>) -> bool {
    !is_doc_line(l) && trim(l).len() > 0
}

pub open spec fn doc_lines_in(ls: Seq<Seq<char>>, k: int) -> int
    decreases k,
{
    if k <= 0 {
        0
    } else {
        doc_lines_in(ls, k - 1) + flag(is_doc_line(ls[k - 1]))
    }
}

pub open spec fn code_lines_in(ls: Seq<Seq<char>>, k: int) -> int
    decreases k,
{
    if k <= 0 {
        0
    } else {
        code_lines_in(ls, k - 1) + flag(is_code_line(ls[k - 1]))
    }
}

pub open spec fn doc_lines(cs: Seq<ChangeView>, k: int) -> int
    decreases k,
{
    if k <= 0 {
        0
    } else {
        doc_lines(cs, k - 1) + doc_lines_in(cs[k - 1].added, cs[k - 1].added.len() as int)
    }
}

pub open spec fn code_lines(cs: Seq<ChangeView>, k: int) -> int
    decreases k,
{
    if k <= 0 {
        0
    } else {
        code_lines(cs, k - 1) + code_lines_in(cs[k - 1].added, cs[k - 1].added.len() as int)
    }
}

pub open spec fn is_doc_path(p: Seq<char>) -> bool {
    ends_with(p, "README.md"@) || contains(p, "doc"@)
}

pub open spec fn doc_files(cs: Seq<ChangeView>, k: int) -> int
    decreases k,
{
    if k <= 0 {
        0
    } else {
        doc_files(cs, k - 1) + flag(is_doc_path(cs[k - 1].path))
    }
}

/// Sub-score for documentation, in millionths: full when a documentation
/// path is touched, else banded by the ratio of documentation lines to code
/// lines (above a fifth, a tenth, a twentieth).
pub open spec fn doc_score(cs: Seq<ChangeView>) -> int {
    let d = doc_lines(cs, cs.len() as int);
    let c = code_lines(cs, cs.len() as int);
    if doc_files(cs, cs.len() as int) > 0 {
        1_000_000
    } else if c > 0 && 5 * d > c {
        900_000
    } else if c > 0 && 10 * d > c {
        700_000
    } else if c > 0 && 20 * d > c {
        500_000
    } else {
        300_000
    }
}

// ---------------------------------------------------------------- coherence

/// Position of the last `/`, or -1.
pub open spec fn last_slash(p: Seq<char>) -> int
    decreases p.len(),
{
    if p.len() == 0 {
        -1
    } else if p.last() == '/' {
        p.len() - 1
    } else {
        last_slash(p.drop_last())
    }
}

/// The directory part of a path: what stands before its last `/`.
pub open spec fn dir_of(p: Seq<char>) -> Option<Seq<char>> {
    if last_slash(p) >= 0 {
        Some(p.take(last_slash(p)))
    } else {
        None
    }
}

/// Record `k` names a directory that no earlier record names.
pub open spec fn new_dir(cs: Seq<ChangeView>, k: int) -> bool {
    dir_of(cs[k].path) is Some && forall|j: int| 0 <= j < k ==> dir_of(#[trigger] cs[j].path) != dir_of(cs[k].path)
}

pub open spec fn distinct_dirs(cs: Seq<ChangeView>, k: int) -> int
    decreases k,
{
    if k <= 0 {
        0
    } else {
        distinct_dirs(cs, k - 1) + flag(new_dir(cs, k - 1))
    }
}

pub open spec fn is_config_path(p: Seq<char>) -> bool {
    ends_with(p, ".toml"@) || ends_with(p, ".json"@) || ends_with(p, ".yml"@)
}

/// How many of tests, non-test files, Markdown and configuration are touched.
pub open spec fn concern_count(cs: Seq<ChangeView>) -> int {
    flag(exists|i: int| 0 <= i < cs.len() && contains(#[trigger] cs[i].path, "test"@)) + flag(
        exists|i: int| 0 <= i < cs.len() && !contains(#[trigger] cs[i].path, "test"@),
    ) + flag(exists|i: int| 0 <= i < cs.len() && ends_with(#[trigger] cs[i].path, ".md"@)) + flag(
        exists|i: int| 0 <= i < cs.len() && is_config_path(#[trigger] cs[i].path),
    )
}

pub open spec fn is_name_edge(c: char) -> bool {
    c == '{' || c == '(' || c == ':' || c == '='
}

pub open spec fn strip_edge_end(s: Seq<char>) -> Seq<char>
    decreases s.len(),
{
    if s.len() > 0 && is_name_edge(s.last()) {
        strip_edge_end(s.drop_last())
    } else {
        s
    }
}

pub open spec fn strip_edge_start(s: Seq<char>) -> Seq<char>
    decreases s.len(),
{
    if s.len() > 0 && is_name_edge(s[0]) {
        strip_edge_start(s.drop_first())
    } else {
        s
    }
}

/// The name a function-definition line declares: its second word without
/// brackets, colons or equals signs at either end.
pub open spec fn declared_name(l: Seq<char>) -> Seq<char> {
    strip_edge_start(strip_edge_end(second_word(l)))
}

pub open spec fn declares(l: Seq<char>, m: LineMarks) -> bool {
    m.function && words_of(l).len() > 1
}

pub open spec fn names_in(ls: Seq<Seq<char>>, ms: Seq<LineMarks>, k: int) -> Seq<Seq<char>>
    decreases k,
{
    if k <= 0 {
        Seq::empty()
    } else if declares(ls[k - 1], ms[k - 1]) {
        names_in(ls, ms, k - 1).push(declared_name(ls[k - 1]))
    } else {
        names_in(ls, ms, k - 1)
    }
}

/// Names of the functions the added lines declare, in order.
pub open spec fn declared_names(cs: Seq<ChangeView>, mss: Seq<Seq<LineMarks>>, k: int) -> Seq<Seq<char>>
    decreases k,
{
    if k <= 0 {
        Seq::empty()
    } else {
        declared_names(cs, mss, k - 1) + names_in(cs[k - 1].added, mss[k - 1], cs[k - 1].added.len() as int)
    }
}

pub open spec fn common_prefix(a: Seq<char>, b: Seq<char>) -> int
    decreases a.len(),
{
    if a.len() == 0 || b.len() == 0 || a[0] != b[0] {
        0
    } else {
        1 + common_prefix(a.drop_first(), b.drop_first())
    }
}

pub open spec fn longer(a: Seq<char>, b: Seq<char>) -> int {
    if a.len() >= b.len() {
        a.len() as int
    } else {
        b.len() as int
    }
}

/// Common-prefix ratio of two names, in millionths.
pub open spec fn prefix_ratio(a: Seq<char>, b: Seq<char>) -> int {
    if longer(a, b) > 0 {
        common_prefix(a, b) * 1_000_000 / longer(a, b)
    } else {
        0
    }
}

/// Sum of the ratios of name `i` with names `i+1 .. k`.
pub open spec fn row_sum(ns: Seq<Seq<char>>, i: int, k: int) -> int
    decreases k - i,
{
    if k <= i + 1 {
        0
    } else {
        row_sum(ns, i, k - 1) + prefix_ratio(ns[i], ns[k - 1])
    }
}

/// Number of pairs of name `i` with names `i+1 .. k` not both empty.
pub open spec fn row_count(ns: Seq<Seq<char>>, i: int, k: int) -> int
    decreases k - i,
{
    if k <= i + 1 {
        0
    } else {
        row_count(ns, i, k - 1) + flag(longer(ns[i], ns[k - 1]) > 0)
    }
}

pub open spec fn pair_sum(ns: Seq<Seq<char>>, k: int) -> int
    decreases k,
{
    if k <= 0 {
        0
    } else {
        pair_sum(ns, k - 1) + row_sum(ns, k - 1, ns.len() as int)
    }
}

pub open spec fn pair_count(ns: Seq<Seq<char>>, k: int) -> int
    decreases k,
{
    if k <= 0 {
        0
    } else {
        pair_count(ns, k - 1) + row_count(ns, k - 1, ns.len() as int)
    }
}

/// Similarity of declared names, in millionths: one half plus half the mean
/// pairwise common-prefix ratio; full when there is nothing to compare.
pub open spec fn name_similarity(ns: Seq<Seq<char>>) -> int {
    let c = pair_count(ns, ns.len() as int);
    if ns.len() < 2 || c == 0 {
        1_000_000
    } else {
        500_000 + pair_sum(ns, ns.len() as int) / c / 2
    }
}

/// Sub-score for coherence, in millionths.
pub open spec fn coherence_score(cs: Seq<ChangeView>, mss: Seq<Seq<LineMarks>>) -> int {
    if cs.len() == 0 {
        0
    } else {
        let d = distinct_dirs(cs, cs.len() as int);
        let s1: int = if d > 3 {
            700_000
        } else if d == 1 {
            1_200_000
        } else {
            1_000_000
        };
        let s2: int = if concern_count(cs) > 2 {
            s1 * 8 / 10
        } else {
            s1
        };
        let s3 = s2 * name_similarity(declared_names(cs, mss, cs.len() as int)) / 1_000_000;
        if s3 > 1_000_000 {
            1_000_000
        } else {
            s3
        }
    }
}

// ---------------------------------------------------------------- scorers

/// Sub-score for the number of files, in millionths.
pub fn analyze_file_metrics(changes: &Vec<FileChange>) -> (r: u64)
    ensures
        r == file_count_score(changes@.len() as int),
{
    let n = changes.len();
    if n == 0 {
        0
    } else if 2 <= n && n <= 5 {
        SCALE
    } else if n == 1 {
        7 * SCALE / 10
    } else if n <= 10 {
        let over = n as u64 - 5;
        assert(1 <= over <= 5);
        800_000 - over * 100_000
    } else {
        3 * SCALE / 10
    }
}

fn line_complexity_exec(l: &[char]) -> (r: u64)
    ensures
        r == line_complexity(l@),
        r <= 7,
{
    let mut n: u64 = 0;
    if has(l, "if ") || has(l, "if(") {
        n += 1;
    }
    if has(l, "else if") || has(l, "elif") {
        n += 1;
    }
    if has(l, "for ") || has(l, "for(") {
        n += 1;
    }
    if has(l, "while ") || has(l, "while(") {
        n += 1;
    }
    if has(l, "match ") || has(l, "switch") {
        n += 1;
    }
    if has(l, " && ") || has(l, " || ") {
        n += 1;
    }
    if has(l, ".unwrap()") || has(l, "?") {
        n += 1;
    }
    n
}

/// Cyclomatic estimate of one file: one, plus one per construct found on its
/// added lines.
pub fn calculate_cyclomatic_complexity(change: &FileChange) -> (r: u64)
    requires
        change.added@.len() <= MAX_RECORD_LINES,
    ensures
        r == file_complexity(change@),
{
    let ghost ls = lines_view(change.added);
    let mut n: u64 = 1;
    let mut j: usize = 0;
    while j < change.added.len()
        invariant
            ls == lines_view(change.added),
            j <= ls.len(),
            ls.len() <= MAX_RECORD_LINES,
            n == 1 + lines_complexity(ls.take(j as int)),
            n <= 1 + 7 * j,
        decreases ls.len() - j,
    {
        proof {
            assert(ls.take(j + 1).drop_last() =~= ls.take(j as int));
        }
        let l = chars_of(change.added[j].as_str());
        n += line_complexity_exec(l.as_slice());
        j += 1;
    }
    proof {
        assert(ls.take(ls.len() as int) =~= ls);
    }
    n
}

/// Sub-score for the most complex file, in millionths.
pub fn analyze_complexity(changes: &Vec<FileChange>) -> (r: u64)
    requires
        within_limits(changes_view(changes@)),
    ensures
        r == complexity_score(changes_view(changes@)),
{
    let ghost cs = changes_view(changes@);
    let mut m: u64 = 0;
    let mut i: usize = 0;
    while i < changes.len()
        invariant
            cs == changes_view(changes@),
            within_limits(cs),
            i <= cs.len(),
            m == max_complexity(cs.take(i as int)),
        decreases cs.len() - i,
    {
        proof {
            assert(cs.take(i + 1).drop_last() =~= cs.take(i as int));
            lemma_total_size_take(cs, i as int);
            lemma_total_size_take(cs, i + 1);
            lemma_total_size_nonneg(cs.take(i as int));
        }
        let c = calculate_cyclomatic_complexity(&changes[i]);
        if c > m {
            m = c;
        }
        i += 1;
    }
    proof {
        assert(cs.take(cs.len() as int) =~= cs);
    }
    if m > 10 {
        3 * SCALE / 10
    } else if m > 7 {
        6 * SCALE / 10
    } else if m > 4 {
        8 * SCALE / 10
    } else {
        SCALE
    }
}

/// Sub-score for how tests accompany the change, in millionths.
pub fn analyze_test_impact(changes: &Vec<FileChange>) -> (r: u64)
    ensures
        r == test_score(changes_view(changes@)),
{
    let ghost cs = changes_view(changes@);
    let mut tests: u64 = 0;
    let mut sources: u64 = 0;
    let mut i: usize = 0;
    while i < changes.len()
        invariant
            cs == changes_view(changes@),
            i <= cs.len(),
            tests == test_files(cs, i as int),
            sources == source_files(cs, i as int),
            tests <= i,
            sources <= i,
        decreases cs.len() - i,
    {
        let p = chars_of(changes[i].path.as_str());
        let is_test = has(p.as_slice(), "test") || has(p.as_slice(), "spec");
        if is_test {
            tests += 1;
        } else if ends(p.as_slice(), ".rs") || ends(p.as_slice(), ".py") || ends(p.as_slice(), ".js") || ends(
            p.as_slice(),
            ".ts",
        ) {
            sources += 1;
        }
        i += 1;
    }
    if tests > 0 && sources > 0 {
        SCALE
    } else if tests > 0 {
        9 * SCALE / 10
    } else if sources > 0 && sources <= 3 {
        6 * SCALE / 10
    } else {
        3 * SCALE / 10
    }
}

/// Risk units of one file: those of its added lines, plus one when it removes
/// more than twice what it adds.
fn file_risk_exec(change: &FileChange, marks: &Vec<LineMarks>) -> (r: u64)
    requires
        marks@.len() == change.added@.len(),
        change.added@.len() <= MAX_RECORD_LINES,
    ensures
        r == file_risk(change@, marks@),
        r <= 8 * change.added@.len() + 1,
{
    let ghost ls = lines_view(change.added);
    let mut n: u64 = 0;
    let mut j: usize = 0;
    while j < change.added.len()
        invariant
            ls == lines_view(change.added),
            marks@.len() == ls.len(),
            j <= ls.len(),
            ls.len() <= MAX_RECORD_LINES,
            n == lines_risk(ls, marks@, j as int),
            n <= 8 * j,
        decreases ls.len() - j,
    {
        let l = chars_of(change.added[j].as_str());
        let m = marks[j];
        if m.breaking {
            n += 3;
        }
        if m.security {
            n += 2;
        }
        if m.todo {
            n += 1;
        }
        if has(l.as_slice(), ".unwrap()") || has(l.as_slice(), "unsafe") {
            n += 2;
        }
        j += 1;
    }
    if change.removed.len() / 2 > change.added.len() || (change.removed.len() / 2 == change.added.len()
        && change.removed.len() % 2 == 1) {
        n += 1;
    }
    n
}

/// Sub-score for risk, in millionths.
pub fn analyze_risk(changes: &Vec<FileChange>, marks: &Vec<Vec<LineMarks>>) -> (r: u64)
    requires
        within_limits(changes_view(changes@)),
        aligned(changes_view(changes@), marks_view(*marks)),
    ensures
        r == risk_score(changes_view(changes@), marks_view(*marks)),
{
    let ghost cs = changes_view(changes@);
    let ghost ms = marks_view(*marks);
    let mut units: u64 = 0;
    let mut critical: u64 = 0;
    let mut i: usize = 0;
    while i < changes.len()
        invariant
            cs == changes_view(changes@),
            ms == marks_view(*marks),
            within_limits(cs),
            aligned(cs, ms),
            i <= cs.len(),
            units == risk_units(cs, ms, i as int),
            units <= 8 * total_size(cs.take(i as int)),
            critical == critical_files(cs, i as int),
            critical <= i,
        decreases cs.len() - i,
    {
        proof {
            lemma_total_size_take(cs, i as int);
            lemma_total_size_take(cs, i + 1);
            assert(ms[i as int] == marks@[i as int]@);
        }
        units += file_risk_exec(&changes[i], &marks[i]);
        let p = chars_of(changes[i].path.as_str());
        if has(p.as_slice(), "auth") || has(p.as_slice(), "security") || has(p.as_slice(), "payment") || has(
            p.as_slice(),
            "database",
        ) {
            critical += 1;
        }
        i += 1;
    }
    if units == 0 && critical == 0 {
        SCALE
    } else if units <= 2 && critical == 0 {
        8 * SCALE / 10
    } else if units <= 5 && critical <= 1 {
        6 * SCALE / 10
    } else if units <= 10 {
        4 * SCALE / 10
    } else {
        2 * SCALE / 10
    }
}

/// The line without white space at either end.
pub fn trimmed(s: &[char]) -> (r: Vec<char>)
    ensures
        r@ == trim(s@),
{
    let mut e: usize = s.len();
    proof {
        assert(s@.take(e as int) =~= s@);
    }
    while e > 0 && is_space_exec(s[e - 1])
        invariant
            e <= s@.len(),
            trim_end(s@) == trim_end(s@.take(e as int)),
        decreases e,
    {
        proof {
            assert(s@.take(e as int).drop_last() =~= s@.take(e - 1));
        }
        e -= 1;
    }
    let ghost t = s@.take(e as int);
    let mut b: usize = 0;
    proof {
        assert(t.skip(0) =~= t);
    }
    while b < e && is_space_exec(s[b])
        invariant
            b <= e <= s@.len(),
            t == s@.take(e as int),
            trim_end(s@) == t,
            trim_start(t) == trim_start(t.skip(b as int)),
        decreases e - b,
    {
        proof {
            assert(t.skip(b as int).drop_first() =~= t.skip(b + 1));
        }
        b += 1;
    }
    assert(t.skip(b as int) =~= s@.subrange(b as int, e as int));
    copy_range(s, b, e)
}

fn is_doc_line_exec(l: &[char]) -> (r: bool)
    ensures
        r == is_doc_line(l@),
{
    let t = trimmed(l);
    let ts = t.as_slice();
    begins(ts, "//") || begins(ts, "#") || begins(ts, "/**") || begins(ts, "///") || has(l, "TODO") || has(l, "NOTE")
}

/// Sub-score for documentation, in millionths.
pub fn analyze_documentation(changes: &Vec<FileChange>) -> (r: u64)
    requires
        within_limits(changes_view(changes@)),
    ensures
        r == doc_score(changes_view(changes@)),
{
    let ghost cs = changes_view(changes@);
    let mut docs: u64 = 0;
    let mut code: u64 = 0;
    let mut doc_paths: u64 = 0;
    let mut i: usize = 0;
    while i < changes.len()
        invariant
            cs == changes_view(changes@),
            within_limits(cs),
            i <= cs.len(),
            docs == doc_lines(cs, i as int),
            code == code_lines(cs, i as int),
            doc_paths == doc_files(cs, i as int),
            docs + code <= total_size(cs.take(i as int)),
            doc_paths <= i,
        decreases cs.len() - i,
    {
        proof {
            lemma_total_size_take(cs, i as int);
            lemma_total_size_take(cs, i + 1);
        }
        let c = &changes[i];
        let ghost ls = lines_view(c.added);
        let p = chars_of(c.path.as_str());
        if ends(p.as_slice(), "README.md") || has(p.as_slice(), "doc") {
            doc_paths += 1;
        }
        let mut d: u64 = 0;
        let mut k: u64 = 0;
        let mut j: usize = 0;
        while j < c.added.len()
            invariant
                ls == lines_view(c.added),
                j <= ls.len(),
                d == doc_lines_in(ls, j as int),
                k == code_lines_in(ls, j as int),
                d + k <= j,
                docs + code + ls.len() <= MAX_RECORD_LINES,
            decreases ls.len() - j,
        {
            let l = chars_of(c.added[j].as_str());
            if is_doc_line_exec(l.as_slice()) {
                d += 1;
            } else {
                let t = trimmed(l.as_slice());
                if t.len() > 0 {
                    k += 1;
                }
            }
            j += 1;
        }
        docs += d;
        code += k;
        i += 1;
    }
    proof {
        assert(cs.take(cs.len() as int) =~= cs);
    }
    if doc_paths > 0 {
        SCALE
    } else if code > 0 && 5 * docs > code {
        9 * SCALE / 10
    } else if code > 0 && 10 * docs > code {
        7 * SCALE / 10
    } else if code > 0 && 20 * docs > code {
        5 * SCALE / 10
    } else {
        3 * SCALE / 10
    }
}

pub open spec fn opt_view(o: Option<Vec<char>>) -> Option<Seq<char>> {
    match o {
        Some(v) => Some(v@),
        None => None,
    }
}

pub open spec fn names_view(v: Vec<Vec<char>>) -> Seq<Seq<char>> {
    v@.map_values(|x: Vec<char>| x@)
}

pub fn chars_equal(a: &[char], b: &[char]) -> (r: bool)
    ensures
        r == (a@ == b@),
{
    if a.len() != b.len() {
        return false;
    }
    let r = crate::text::occurs_at_exec(a, b, 0);
    assert(a@.subrange(0, a@.len() as int) =~= a@);
    r
}

fn same_dir(a: &Option<Vec<char>>, b: &Option<Vec<char>>) -> (r: bool)
    ensures
        r == (opt_view(*a) == opt_view(*b)),
{
    match (a, b) {
        (Some(x), Some(y)) => chars_equal(x.as_slice(), y.as_slice()),
        (None, None) => true,
        _ => false,
    }
}

/// The directory part of a path, if it has a `/`.
fn dir_of_exec(p: &[char]) -> (r: Option<Vec<char>>)
    ensures
        opt_view(r) == dir_of(p@),
{
    let mut e: usize = p.len();
    proof {
        assert(p@.take(e as int) =~= p@);
    }
    while e > 0 && p[e - 1] != '/'
        invariant
            e <= p@.len(),
            last_slash(p@) == last_slash(p@.take(e as int)),
        decreases e,
    {
        proof {
            assert(p@.take(e as int).drop_last() =~= p@.take(e - 1));
        }
        e -= 1;
    }
    if e == 0 {
        None
    } else {
        Some(copy_range(p, 0, e - 1))
    }
}

/// Number of distinct directories among the records' paths.
fn count_directories(changes: &Vec<FileChange>) -> (r: u64)
    ensures
        r == distinct_dirs(changes_view(changes@), changes@.len() as int),
{
    let ghost cs = changes_view(changes@);
    let mut dirs: Vec<Option<Vec<char>>> = Vec::new();
    let mut n: u64 = 0;
    let mut i: usize = 0;
    while i < changes.len()
        invariant
            cs == changes_view(changes@),
            i <= cs.len(),
            dirs@.len() == i,
            forall|k: int| 0 <= k < i ==> opt_view(#[trigger] dirs@[k]) == dir_of(cs[k].path),
            n == distinct_dirs(cs, i as int),
            n <= i,
        decreases cs.len() - i,
    {
        let p = chars_of(changes[i].path.as_str());
        let d = dir_of_exec(p.as_slice());
        let mut seen = false;
        let mut j: usize = 0;
        while j < i
            invariant
                i <= cs.len(),
                dirs@.len() == i,
                j <= i,
                forall|k: int| 0 <= k < i ==> opt_view(#[trigger] dirs@[k]) == dir_of(cs[k].path),
                seen == exists|k: int| 0 <= k < j && dir_of(#[trigger] cs[k].path) == opt_view(d),
            decreases i - j,
        {
            if same_dir(&dirs[j], &d) {
                seen = true;
            }
            j += 1;
        }
        proof {
            if !seen {
                assert forall|k: int| 0 <= k < i implies dir_of(#[trigger] cs[k].path) != dir_of(cs[i as int].path) by {
                }
            }
        }
        if d.is_some() && !seen {
            n += 1;
        }
        dirs.push(d);
        i += 1;
    }
    n
}

/// Number of concerns touched among tests, non-test files, Markdown and
/// configuration.
fn count_concerns(changes: &Vec<FileChange>) -> (r: u64)
    ensures
        r == concern_count(changes_view(changes@)),
{
    let ghost cs = changes_view(changes@);
    let mut tests = false;
    let mut others = false;
    let mut markdown = false;
    let mut config = false;
    let mut i: usize = 0;
    while i < changes.len()
        invariant
            cs == changes_view(changes@),
            i <= cs.len(),
            tests == exists|k: int| 0 <= k < i && contains(#[trigger] cs[k].path, "test"@),
            others == exists|k: int| 0 <= k < i && !contains(#[trigger] cs[k].path, "test"@),
            markdown == exists|k: int| 0 <= k < i && ends_with(#[trigger] cs[k].path, ".md"@),
            config == exists|k: int| 0 <= k < i && is_config_path(#[trigger] cs[k].path),
        decreases cs.len() - i,
    {
        let p = chars_of(changes[i].path.as_str());
        let ps = p.as_slice();
        assert(cs[i as int].path == ps@);
        if has(ps, "test") {
            tests = true;
        } else {
            others = true;
        }
        if ends(ps, ".md") {
            markdown = true;
        }
        if ends(ps, ".toml") || ends(ps, ".json") || ends(ps, ".yml") {
            config = true;
        }
        i += 1;
    }
    let mut n: u64 = 0;
    if tests {
        n += 1;
    }
    if others {
        n += 1;
    }
    if markdown {
        n += 1;
    }
    if config {
        n += 1;
    }
    n
}

fn strip_name_edges(s: &[char]) -> (r: Vec<char>)
    ensures
        r@ == strip_edge_start(strip_edge_end(s@)),
{
    let mut e: usize = s.len();
    proof {
        assert(s@.take(e as int) =~= s@);
    }
    while e > 0 && (s[e - 1] == '{' || s[e - 1] == '(' || s[e - 1] == ':' || s[e - 1] == '=')
        invariant
            e <= s@.len(),
            strip_edge_end(s@) == strip_edge_end(s@.take(e as int)),
        decreases e,
    {
        proof {
            assert(s@.take(e as int).drop_last() =~= s@.take(e - 1));
        }
        e -= 1;
    }
    let ghost t = s@.take(e as int);
    let mut b: usize = 0;
    proof {
        assert(t.skip(0) =~= t);
    }
    while b < e && (s[b] == '{' || s[b] == '(' || s[b] == ':' || s[b] == '=')
        invariant
            b <= e <= s@.len(),
            t == s@.take(e as int),
            strip_edge_end(s@) == t,
            strip_edge_start(t) == strip_edge_start(t.skip(b as int)),
        decreases e - b,
    {
        proof {
            assert(t.skip(b as int).drop_first() =~= t.skip(b + 1));
        }
        b += 1;
    }
    assert(t.skip(b as int) =~= s@.subrange(b as int, e as int));
    copy_range(s, b, e)
}

/// Names of the functions that the added lines declare, in order.
fn extract_function_names(changes: &Vec<FileChange>, marks: &Vec<Vec<LineMarks>>) -> (r: Vec<Vec<char>>)
    requires
        aligned(changes_view(changes@), marks_view(*marks)),
    ensures
        names_view(r) == declared_names(changes_view(changes@), marks_view(*marks), changes@.len() as int),
        names_view(r).len() <= total_size(changes_view(changes@)),
{
    let ghost cs = changes_view(changes@);
    let ghost ms = marks_view(*marks);
    let mut names: Vec<Vec<char>> = Vec::new();
    let mut i: usize = 0;
    while i < changes.len()
        invariant
            cs == changes_view(changes@),
            ms == marks_view(*marks),
            aligned(cs, ms),
            i <= cs.len(),
            names_view(names) == declared_names(cs, ms, i as int),
            names@.len() <= total_size(cs.take(i as int)),
        decreases cs.len() - i,
    {
        proof {
            lemma_total_size_take(cs, i as int);
            lemma_total_size_take(cs, i + 1);
            assert(ms[i as int] == marks@[i as int]@);
        }
        let c = &changes[i];
        let m = &marks[i];
        let ghost ls = lines_view(c.added);
        let ghost base = names_view(names);
        let ghost base_len = names@.len();
        let mut j: usize = 0;
        while j < c.added.len()
            invariant
                ls == lines_view(c.added),
                m@.len() == ls.len(),
                j <= ls.len(),
                names_view(names) == base + names_in(ls, m@, j as int),
                names@.len() <= base_len + j,
            decreases ls.len() - j,
        {
            let l = chars_of(c.added[j].as_str());
            if m[j].function {
                let words = split_words(l.as_slice());
                assert(ls[j as int] == l@);
                assert(words_of(l@).len() == words@.len());
                if words.len() > 1 {
                    assert(words@[1]@ == words_of(l@)[1]);
                    let name = strip_name_edges(words[1].as_slice());
                    let ghost before = names_view(names);
                    assert(name@ == declared_name(ls[j as int]));
                    assert(declares(ls[j as int], m@[j as int]));
                    names.push(name);
                    assert(names_view(names) =~= before.push(declared_name(ls[j as int])));
                    assert(names_in(ls, m@, j + 1) == names_in(ls, m@, j as int).push(declared_name(ls[j as int])));
                    assert(names_view(names) =~= base + names_in(ls, m@, j + 1));
                }
            }
            j += 1;
        }
        i += 1;
    }
    proof {
        assert(cs.take(cs.len() as int) =~= cs);
    }
    names
}

pub proof fn lemma_common_prefix_bound(a: Seq<char>, b: Seq<char>)
    ensures
        0 <= common_prefix(a, b) <= a.len(),
        common_prefix(a, b) <= b.len(),
    decreases a.len(),
{
    if !(a.len() == 0 || b.len() == 0 || a[0] != b[0]) {
        lemma_common_prefix_bound(a.drop_first(), b.drop_first());
    }
}

fn common_prefix_exec(a: &[char], b: &[char]) -> (r: usize)
    ensures
        r == common_prefix(a@, b@),
{
    let mut k: usize = 0;
    proof {
        assert(a@.skip(0) =~= a@);
        assert(b@.skip(0) =~= b@);
    }
    while k < a.len() && k < b.len() && a[k] == b[k]
        invariant
            k <= a@.len(),
            k <= b@.len(),
            common_prefix(a@, b@) == k + common_prefix(a@.skip(k as int), b@.skip(k as int)),
        decreases a@.len() - k,
    {
        proof {
            assert(a@.skip(k as int).drop_first() =~= a@.skip(k + 1));
            assert(b@.skip(k as int).drop_first() =~= b@.skip(k + 1));
        }
        k += 1;
    }
    k
}

fn prefix_ratio_exec(a: &[char], b: &[char]) -> (r: u128)
    ensures
        r == prefix_ratio(a@, b@),
        r <= 1_000_000,
{
    let longest: usize = if a.len() >= b.len() {
        a.len()
    } else {
        b.len()
    };
    if longest == 0 {
        return 0;
    }
    let p = common_prefix_exec(a, b);
    proof {
        lemma_common_prefix_bound(a@, b@);
        assert(p <= longest);
        assert((p as int) * 1_000_000 / (longest as int) <= 1_000_000) by (nonlinear_arith)
            requires
                0 <= p <= longest,
                longest > 0,
        {
            vstd::arithmetic::div_mod::lemma_div_is_ordered(
                (p as int) * 1_000_000,
                (longest as int) * 1_000_000,
                longest as int,
            );
            vstd::arithmetic::div_mod::lemma_div_multiples_vanish(1_000_000, longest as int);
        }
    }
    (p as u128) * 1_000_000 / (longest as u128)
}

/// Similarity of declared names, in millionths.
fn calculate_semantic_similarity(names: &Vec<Vec<char>>) -> (r: u128)
    requires
        names@.len() <= MAX_RECORD_LINES,
    ensures
        r == name_similarity(names_view(*names)),
        r <= 1_000_000,
{
    let ghost ns = names_view(*names);
    let n = names.len();
    let mut sum: u128 = 0;
    let mut count: u128 = 0;
    let mut i: usize = 0;
    while i < n
        invariant
            ns == names_view(*names),
            n == ns.len(),
            n <= MAX_RECORD_LINES,
            i <= n,
            sum == pair_sum(ns, i as int),
            count == pair_count(ns, i as int),
            count <= i * 0xffff_ffff,
            sum <= count * 1_000_000,
        decreases n - i,
    {
        let mut rs: u128 = 0;
        let mut rc: u128 = 0;
        let mut j: usize = i + 1;
        while j < n
            invariant
                ns == names_view(*names),
                n == ns.len(),
                n <= MAX_RECORD_LINES,
                i < n,
                i + 1 <= j <= n,
                rs == row_sum(ns, i as int, j as int),
                rc == row_count(ns, i as int, j as int),
                rc <= j,
                rs <= rc * 1_000_000,
            decreases n - j,
        {
            let t = prefix_ratio_exec(names[i].as_slice(), names[j].as_slice());
            rs += t;
            if names[i].len() > 0 || names[j].len() > 0 {
                rc += 1;
            } else {
                assert(t == 0);
            }
            j += 1;
        }
        sum += rs;
        count += rc;
        i += 1;
    }
    if n < 2 || count == 0 {
        return 1_000_000;
    }
    proof {
        assert(sum / count <= 1_000_000) by (nonlinear_arith)
            requires
                sum <= count * 1_000_000,
                count > 0,
        {
            vstd::arithmetic::div_mod::lemma_div_is_ordered(sum as int, (count as int) * 1_000_000, count as int);
            vstd::arithmetic::div_mod::lemma_div_multiples_vanish(1_000_000, count as int);
        }
    }
    500_000 + sum / count / 2
}

/// Sub-score for coherence, in millionths.
pub fn analyze_coherence(changes: &Vec<FileChange>, marks: &Vec<Vec<LineMarks>>) -> (r: u64)
    requires
        within_limits(changes_view(changes@)),
        aligned(changes_view(changes@), marks_view(*marks)),
    ensures
        r == coherence_score(changes_view(changes@), marks_view(*marks)),
{
    if changes.len() == 0 {
        return 0;
    }
    let d = count_directories(changes);
    let s1: u128 = if d > 3 {
        700_000
    } else if d == 1 {
        1_200_000
    } else {
        1_000_000
    };
    let s2: u128 = if count_concerns(changes) > 2 {
        s1 * 8 / 10
    } else {
        s1
    };
    let names = extract_function_names(changes, marks);
    let sim = calculate_semantic_similarity(&names);
    assert(s2 * sim <= 1_200_000 * 1_000_000) by (nonlinear_arith)
        requires
            s2 <= 1_200_000,
            sim <= 1_000_000,
    ;
    let s3 = s2 * sim / 1_000_000;
    if s3 > 1_000_000 {
        1_000_000
    } else {
        s3 as u64
    }
}

// ---------------------------------------------------------------- report

/// What to do with a change set.
#[derive(Debug, Clone, Copy, PartialEq, Eq, Structural)]
pub enum CommitDecision {
    /// Ready to commit.
    Commit,
    /// Needs more work first.
    Wait,
    /// Too large or scattered: split it.
    Split,
    /// Save locally without pushing.
    GhostSave,
}

/// The six sub-scores of a change set, each in millionths.
#[derive(Debug, Clone, Copy, PartialEq, Eq, Structural)]
pub struct SubScores {
    pub file_metrics: u64,
    pub complexity: u64,
    pub coherence: u64,
    pub tests: u64,
    pub risk: u64,
    pub documentation: u64,
}

/// Each sub-score times its weight (15, 20, 25, 15, 15 and 10 hundredths),
/// under its name.
pub open spec fn components_for(s: SubScores) -> Seq<(Seq<char>, int)> {
    seq![
        ("file_metrics"@, s.file_metrics * 15 / 100),
        ("complexity"@, s.complexity * 20 / 100),
        ("coherence"@, s.coherence * 25 / 100),
        ("tests"@, s.tests * 15 / 100),
        ("risk"@, s.risk * 15 / 100),
        ("documentation"@, s.documentation * 10 / 100),
    ]
}

pub open spec fn sum_components(cs: Seq<(Seq<char>, int)>) -> int
    decreases cs.len(),
{
    if cs.len() == 0 {
        0
    } else {
        sum_components(cs.drop_last()) + cs.last().1
    }
}

pub open spec fn decision_for(score: int) -> CommitDecision {
    if score > 600_000 {
        CommitDecision::Commit
    } else if score > 400_000 {
        CommitDecision::Wait
    } else {
        CommitDecision::Split
    }
}

pub open spec fn reasons_for(score: int) -> Seq<Seq<char>> {
    if score > 800_000 {
        seq!["Excellent commit candidate: well-structured, tested, and documented"@]
    } else if score > 600_000 {
        seq!["Good changes, ready to commit"@]
    } else if score > 400_000 {
        seq!["Changes need refinement before committing"@]
    } else {
        seq!["Changes are not ready for commit"@]
    }
}

pub open spec fn when(b: bool, s: Seq<char>) -> Seq<Seq<char>> {
    if b {
        seq![s]
    } else {
        Seq::empty()
    }
}

/// Suggestions: above 0.8 none; above 0.6 for weak tests or documentation;
/// above 0.4 for weak coherence or risk; otherwise both ways to decompose.
pub open spec fn suggestions_for(score: int, s: SubScores) -> Seq<Seq<char>> {
    if score > 800_000 {
        Seq::empty()
    } else if score > 600_000 {
        when(s.tests < 500_000, "Consider adding tests for these changes"@) + when(
            s.documentation < 500_000,
            "Add documentation or comments"@,
        )
    } else if score > 400_000 {
        when(s.coherence < 500_000, "Split into smaller, more focused commits"@) + when(
            s.risk < 500_000,
            "Review risky changes carefully"@,
        )
    } else {
        seq!["Break down changes into smaller, coherent pieces"@, "Ensure all changes are complete and tested"@]
    }
}

/// A report as values.
pub struct ReportView {
    pub final_score: int,
    pub components: Seq<(Seq<char>, int)>,
    pub reasons: Seq<Seq<char>>,
    pub suggestions: Seq<Seq<char>>,
    pub decision: CommitDecision,
}

pub open spec fn report_from(s: SubScores) -> ReportView {
    let f = sum_components(components_for(s));
    ReportView {
        final_score: f,
        components: components_for(s),
        reasons: reasons_for(f),
        suggestions: suggestions_for(f, s),
        decision: decision_for(f),
    }
}

/// Outcome of an analysis: the weighted components, their sum, the decision
/// and why.
#[derive(Debug, Clone)]
pub struct FitnessReport {
    /// Sum of the weighted components, in millionths.
    pub final_score: u64,
    pub components: Vec<(String, u64)>,
    pub reasons: Vec<String>,
    pub suggestions: Vec<String>,
    pub decision: CommitDecision,
}

pub open spec fn components_view(v: Vec<(String, u64)>) -> Seq<(Seq<char>, int)> {
    v@.map_values(|e: (String, u64)| (e.0@, e.1 as int))
}

pub open spec fn strings_view(v: Vec<String>) -> Seq<Seq<char>> {
    v@.map_values(|s: String| s@)
}

impl View for FitnessReport {
    type V = ReportView;

    open spec fn view(&self) -> ReportView {
        ReportView {
            final_score: self.final_score as int,
            components: components_view(self.components),
            reasons: strings_view(self.reasons),
            suggestions: strings_view(self.suggestions),
            decision: self.decision,
        }
    }
}

/// Position of the first entry named `name`, or -1.
pub open spec fn name_index(cs: Seq<(Seq<char>, int)>, name: Seq<char>) -> int
    decreases cs.len(),
{
    if cs.len() == 0 {
        -1
    } else if name_index(cs.drop_last(), name) >= 0 {
        name_index(cs.drop_last(), name)
    } else if cs.last().0 == name {
        cs.len() - 1
    } else {
        -1
    }
}

/// The entries with `name` set to `v`: in place when present, else appended.
pub open spec fn with_component(cs: Seq<(Seq<char>, int)>, name: Seq<char>, v: int) -> Seq<(Seq<char>, int)> {
    let i = name_index(cs, name);
    if i >= 0 {
        cs.update(i, (name, v))
    } else {
        cs.push((name, v))
    }
}

pub proof fn lemma_name_index_prefix(cs: Seq<(Seq<char>, int)>, k: int, name: Seq<char>)
    requires
        0 <= k <= cs.len(),
        name_index(cs.take(k), name) >= 0,
    ensures
        name_index(cs, name) == name_index(cs.take(k), name),
    decreases cs.len(),
{
    if k < cs.len() {
        assert(cs.drop_last().take(k) =~= cs.take(k));
        lemma_name_index_prefix(cs.drop_last(), k, name);
    } else {
        assert(cs.take(k) =~= cs);
    }
}

/// The first value stored under `name`.
pub open spec fn component_named(cs: Seq<(Seq<char>, int)>, name: Seq<char>) -> Option<int>
    decreases cs.len(),
{
    if cs.len() == 0 {
        None
    } else if cs[0].0 == name {
        Some(cs[0].1)
    } else {
        component_named(cs.drop_first(), name)
    }
}

impl FitnessReport {
    /// An empty report: score zero, nothing recorded, decision `Wait`.
    pub fn new() -> (r: Self)
        ensures
            r@ == (ReportView {
                final_score: 0,
                components: Seq::empty(),
                reasons: Seq::empty(),
                suggestions: Seq::empty(),
                decision: CommitDecision::Wait,
            }),
    {
        let r = FitnessReport {
            final_score: 0,
            components: Vec::new(),
            reasons: Vec::new(),
            suggestions: Vec::new(),
            decision: CommitDecision::Wait,
        };
        assert(r@.components =~= Seq::empty());
        assert(r@.reasons =~= Seq::empty());
        assert(r@.suggestions =~= Seq::empty());
        r
    }

    /// Records a weighted component under `name`, replacing the value of an
    /// entry of that name or adding one after the others.
    pub fn add_component(&mut self, name: &str, score: u64)
        ensures
            final(self)@ == (ReportView { components: with_component(old(self)@.components, name@, score as int), ..old(self)@ }),
    {
        let ghost cs = self@.components;
        let mut i: usize = 0;
        while i < self.components.len()
            invariant
                self@ == old(self)@,
                cs == components_view(self.components),
                i <= cs.len(),
                name_index(cs.take(i as int), name@) == -1,
            decreases cs.len() - i,
        {
            proof {
                assert(cs.take(i + 1).drop_last() =~= cs.take(i as int));
            }
            let k = chars_of(self.components[i].0.as_str());
            assert(cs[i as int].0 == k@);
            assert(cs.take(i + 1).last() == cs[i as int]);
            if crate::text::same(k.as_slice(), name) {
                proof {
                    assert(name_index(cs.take(i + 1), name@) == i);
                    lemma_name_index_prefix(cs, i + 1, name@);
                }
                self.components.set(i, (String::from_str(name), score));
                assert(self@.components =~= cs.update(i as int, (name@, score as int)));
                return;
            }
            i += 1;
        }
        proof {
            assert(cs.take(cs.len() as int) =~= cs);
            assert(name_index(cs, name@) == -1);
        }
        self.components.push((String::from_str(name), score));
        assert(self@.components =~= cs.push((name@, score as int)));
    }

    /// Sets the final score to the sum of the components.
    pub fn calculate_final_score(&mut self)
        requires
            sum_components(old(self)@.components) <= u64::MAX,
        ensures
            final(self)@ == (ReportView { final_score: sum_components(old(self)@.components), ..old(self)@ }),
    {
        let ghost cs = self@.components;
        let mut total: u64 = 0;
        let mut i: usize = 0;
        while i < self.components.len()
            invariant
                cs == components_view(self.components),
                i <= cs.len(),
                sum_components(cs) <= u64::MAX,
                total == sum_components(cs.take(i as int)),
            decreases cs.len() - i,
        {
            proof {
                assert(cs.take(i + 1).drop_last() =~= cs.take(i as int));
                lemma_sum_components_take(cs, i + 1);
            }
            total += self.components[i].1;
            i += 1;
        }
        proof {
            assert(cs.take(cs.len() as int) =~= cs);
        }
        self.final_score = total;
    }

    pub fn add_reason(&mut self, reason: &str)
        ensures
            final(self)@ == (ReportView { reasons: old(self)@.reasons.push(reason@), ..old(self)@ }),
    {
        let ghost before = self@.reasons;
        self.reasons.push(String::from_str(reason));
        assert(self@.reasons =~= before.push(reason@));
    }

    pub fn add_suggestion(&mut self, suggestion: &str)
        ensures
            final(self)@ == (ReportView { suggestions: old(self)@.suggestions.push(suggestion@), ..old(self)@ }),
    {
        let ghost before = self@.suggestions;
        self.suggestions.push(String::from_str(suggestion));
        assert(self@.suggestions =~= before.push(suggestion@));
    }

    pub fn set_decision(&mut self, decision: CommitDecision)
        ensures
            final(self)@ == (ReportView { decision, ..old(self)@ }),
    {
        self.decision = decision;
    }

    /// The value recorded under `name`, if any.
    pub fn component(&self, name: &str) -> (r: Option<u64>)
        ensures
            match r {
                Some(v) => component_named(self@.components, name@) == Some(v as int),
                None => component_named(self@.components, name@) is None,
            },
    {
        let ghost cs = self@.components;
        let mut i: usize = 0;
        proof {
            assert(cs.skip(0) =~= cs);
        }
        while i < self.components.len()
            invariant
                cs == components_view(self.components),
                i <= cs.len(),
                component_named(cs, name@) == component_named(cs.skip(i as int), name@),
            decreases cs.len() - i,
        {
            proof {
                assert(cs.skip(i as int).drop_first() =~= cs.skip(i + 1));
                assert(cs.skip(i as int)[0] == cs[i as int]);
            }
            let k = chars_of(self.components[i].0.as_str());
            if crate::text::same(k.as_slice(), name) {
                return Some(self.components[i].1);
            }
            i += 1;
        }
        None
    }
}

pub proof fn lemma_sum_components_take(cs: Seq<(Seq<char>, int)>, k: int)
    requires
        0 <= k <= cs.len(),
        forall|i: int| 0 <= i < cs.len() ==> #[trigger] cs[i].1 >= 0,
    ensures
        sum_components(cs.take(k)) <= sum_components(cs),
    decreases cs.len(),
{
    if k < cs.len() {
        lemma_sum_components_take(cs.drop_last(), k);
        assert(cs.drop_last().take(k) =~= cs.take(k));
    } else {
        assert(cs.take(k) =~= cs);
    }
}

/// The sub-scores of a change set whose lines carry the given marks.
pub open spec fn sub_scores_for(cs: Seq<ChangeView>, ms: Seq<Seq<LineMarks>>) -> SubScores {
    SubScores {
        file_metrics: file_count_score(cs.len() as int) as u64,
        complexity: complexity_score(cs) as u64,
        coherence: coherence_score(cs, ms) as u64,
        tests: test_score(cs) as u64,
        risk: risk_score(cs, ms) as u64,
        documentation: doc_score(cs) as u64,
    }
}

pub open spec fn report_for(cs: Seq<ChangeView>, ms: Seq<Seq<LineMarks>>) -> ReportView {
    report_from(sub_scores_for(cs, ms))
}

/// Adds the reasons, suggestions and decision that the final score calls for.
fn generate_recommendations(report: &mut FitnessReport, s: &SubScores)
    requires
        old(report)@.reasons == Seq::<Seq<char>>::empty(),
        old(report)@.suggestions == Seq::<Seq<char>>::empty(),
    ensures
        final(report)@ == (ReportView {
            reasons: reasons_for(old(report)@.final_score),
            suggestions: suggestions_for(old(report)@.final_score, *s),
            decision: decision_for(old(report)@.final_score),
            ..old(report)@
        }),
{
    let score = report.final_score;
    if score > 8 * SCALE / 10 {
        report.add_reason("Excellent commit candidate: well-structured, tested, and documented");
        report.set_decision(CommitDecision::Commit);
    } else if score > 6 * SCALE / 10 {
        report.add_reason("Good changes, ready to commit");
        if s.tests < 5 * SCALE / 10 {
            report.add_suggestion("Consider adding tests for these changes");
        }
        if s.documentation < 5 * SCALE / 10 {
            report.add_suggestion("Add documentation or comments");
        }
        report.set_decision(CommitDecision::Commit);
    } else if score > 4 * SCALE / 10 {
        report.add_reason("Changes need refinement before committing");
        if s.coherence < 5 * SCALE / 10 {
            report.add_suggestion("Split into smaller, more focused commits");
        }
        if s.risk < 5 * SCALE / 10 {
            report.add_suggestion("Review risky changes carefully");
        }
        report.set_decision(CommitDecision::Wait);
    } else {
        report.add_reason("Changes are not ready for commit");
        report.add_suggestion("Break down changes into smaller, coherent pieces");
        report.add_suggestion("Ensure all changes are complete and tested");
        report.set_decision(CommitDecision::Split);
    }
    assert(report@.reasons =~= reasons_for(score as int));
    assert(report@.suggestions =~= suggestions_for(score as int, *s));
}

fn push_component(report: &mut FitnessReport, name: &str, score: u64)
    ensures
        final(report)@ == (ReportView { components: old(report)@.components.push((name@, score as int)), ..old(report)@ }),
{
    let ghost before = report@.components;
    report.components.push((String::from_str(name), score));
    assert(report@.components =~= before.push((name@, score as int)));
}

/// Scores parsed records whose added lines carry the given marks.
pub fn score_changes(changes: &Vec<FileChange>, marks: &Vec<Vec<LineMarks>>) -> (r: FitnessReport)
    requires
        within_limits(changes_view(changes@)),
        aligned(changes_view(changes@), marks_view(*marks)),
    ensures
        r@ == report_for(changes_view(changes@), marks_view(*marks)),
{
    let s = SubScores {
        file_metrics: analyze_file_metrics(changes),
        complexity: analyze_complexity(changes),
        coherence: analyze_coherence(changes, marks),
        tests: analyze_test_impact(changes),
        risk: analyze_risk(changes, marks),
        documentation: analyze_documentation(changes),
    };
    let mut report = FitnessReport::new();
    push_component(&mut report, "file_metrics", s.file_metrics * 15 / 100);
    push_component(&mut report, "complexity", s.complexity * 20 / 100);
    push_component(&mut report, "coherence", s.coherence * 25 / 100);
    push_component(&mut report, "tests", s.tests * 15 / 100);
    push_component(&mut report, "risk", s.risk * 15 / 100);
    push_component(&mut report, "documentation", s.documentation * 10 / 100);
    proof {
        assert(report@.components =~= components_for(s));
        reveal_with_fuel(sum_components, 7);
    }
    report.calculate_final_score();
    generate_recommendations(&mut report, &s);
    report
}

/// Multi-factor analyzer of change text.
pub struct FitnessAnalyzer {}

impl FitnessAnalyzer {
    pub fn new() -> Self {
        FitnessAnalyzer {  }
    }

    /// The marks of one added line.
    pub fn mark_line(&self, line: &str) -> (r: LineMarks)
        ensures
            r == marks_of(line@),
    {
        LineMarks {
            breaking: pattern_matches(BREAKING_PATTERN, line),
            security: pattern_matches(SECURITY_PATTERN, line),
            todo: pattern_matches(TODO_PATTERN, line),
            function: pattern_matches(FUNCTION_PATTERN, line),
        }
    }

    /// The marks of every added line, record by record.
    pub fn mark_lines(&self, changes: &Vec<FileChange>) -> (r: Vec<Vec<LineMarks>>)
        ensures
            marks_view(r) == marks_for(changes_view(changes@)),
    {
        let ghost cs = changes_view(changes@);
        let mut all: Vec<Vec<LineMarks>> = Vec::new();
        let mut i: usize = 0;
        while i < changes.len()
            invariant
                cs == changes_view(changes@),
                i <= cs.len(),
                marks_view(all) == marks_for(cs).take(i as int),
            decreases cs.len() - i,
        {
            let c = &changes[i];
            let ghost ls = lines_view(c.added);
            let mut ms: Vec<LineMarks> = Vec::new();
            let mut j: usize = 0;
            while j < c.added.len()
                invariant
                    ls == lines_view(c.added),
                    j <= ls.len(),
                    ms@ == ls.take(j as int).map_values(|l: Seq<char>| marks_of(l)),
                decreases ls.len() - j,
            {
                let m = self.mark_line(c.added[j].as_str());
                ms.push(m);
                proof {
                    assert(ms@ =~= ls.take(j + 1).map_values(|l: Seq<char>| marks_of(l)));
                }
                j += 1;
            }
            proof {
                assert(ls.take(ls.len() as int) =~= ls);
            }
            let ghost before = marks_view(all);
            all.push(ms);
            proof {
                assert(marks_view(all) =~= before.push(ms@));
                assert(marks_view(all) =~= marks_for(cs).take(i + 1));
            }
            i += 1;
        }
        proof {
            assert(marks_for(cs).take(cs.len() as int) =~= marks_for(cs));
        }
        all
    }

    /// Parses change text, marks its added lines and scores it.
    pub fn calculate_fitness(&self, diff: &str) -> (r: FitnessReport)
        requires
            diff@.len() <= MAX_RECORD_LINES,
        ensures
            r@ == report_for(parse_text(diff@), marks_for(parse_text(diff@))),
    {
        let changes = parse(diff);
        let marks = self.mark_lines(&changes);
        proof {
            let cs = changes_view(changes@);
            assert forall|i: int| 0 <= i < cs.len() implies #[trigger] marks_view(marks)[i].len() == cs[i].added.len() by {
                assert(marks_view(marks)[i] == marks_for(cs)[i]);
            }
        }
        score_changes(&changes, &marks)
    }
}

/// Empty change text is never a commit: it scores 0.425 and waits. The
/// file-count and coherence components are zero; complexity and risk are
/// full because nothing complex or risky was found.
pub proof fn lemma_empty_change_never_commits()
    ensures
        ({
            let r = report_for(parse_text(Seq::empty()), marks_for(parse_text(Seq::empty())));
            &&& r.decision == CommitDecision::Wait
            &&& r.decision != CommitDecision::Commit
            &&& r.final_score == 425_000
            &&& r.components[0].1 == 0
            &&& r.components[2].1 == 0
        }),
{
    let e = Seq::<char>::empty();
    assert(parse_text(e) =~= Seq::<ChangeView>::empty());
    reveal_with_fuel(sum_components, 7);
}

} // verus!
