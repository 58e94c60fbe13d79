//! Expert fusion: three independent heuristics scored over the raw change
//! text, combined by adaptive weights and squashed into (0, 1).
use vstd::prelude::*;
use crate::diff::{lines_of, split_lines, split_words, words_of};
use crate::fitness_analyzer::{chars_equal, common_prefix, flag};
use crate::fixed::{floor_div, logistic, logistic_exec};
use crate::text::{begins, chars_of, copy_range, count_exec, count_of, starts_with};

verus! {

pub open spec fn clamp(x: int, lo: int, hi: int) -> int {
    if x < lo {
        lo
    } else if x > hi {
        hi
    } else {
        x
    }
}

// ---------------------------------------------------------------- syntax

/// Opinion of the syntax heuristic, in millionths within [-1, 1]: one half,
/// less incomplete-work and warning markers, plus test, documentation and
/// source-file mentions, each counted per line.
pub open spec fn syntax_opinion(s: Seq<char>) -> int {
    let n = lines_of(s).len() as int;
    let total = if n > 1 {
        n
    } else {
        1
    };
    let todo = (count_of(s, "TODO"@) + count_of(s, "FIXME"@)) as int;
    let warn = (count_of(s, "HACK"@) + count_of(s, "XXX"@)) as int;
    let test = (count_of(s, "test"@) + count_of(s, "Test"@)) as int;
    let doc = (count_of(s, ".md"@) + count_of(s, "///"@)) as int;
    let rust = count_of(s, ".rs"@) as int;
    let py = count_of(s, ".py"@) as int;
    clamp(
        500_000 - todo * 2_000_000 / total - warn * 1_500_000 / total + test * 800_000 / total + doc * 600_000
            / total + rust * 300_000 / total + py * 200_000 / total,
        -1_000_000,
        1_000_000,
    )
}

/// Judges code structure and quality markers.
pub struct SyntaxExpert;

impl SyntaxExpert {
    pub fn name(&self) -> (r: &'static str)
        ensures
            r@ == "syntax"@,
    {
        "syntax"
    }

    pub fn opinion(&self, input: &str) -> (r: i64)
        ensures
            r == syntax_opinion(input@),
            -1_000_000 <= r <= 1_000_000,
    {
        let s = chars_of(input);
        let cs = s.as_slice();
        let lines = split_lines(cs);
        let total: i128 = if lines.len() > 1 {
            lines.len() as i128
        } else {
            1
        };
        proof {
            assert(lines@.map_values(|l: Vec<char>| l@).len() == lines@.len());
        }
        let todo = count_exec(cs, "TODO") as i128 + count_exec(cs, "FIXME") as i128;
        let warn = count_exec(cs, "HACK") as i128 + count_exec(cs, "XXX") as i128;
        let test = count_exec(cs, "test") as i128 + count_exec(cs, "Test") as i128;
        let doc = count_exec(cs, ".md") as i128 + count_exec(cs, "///") as i128;
        let rust = count_exec(cs, ".rs") as i128;
        let py = count_exec(cs, ".py") as i128;
        let raw: i128 = 500_000 - todo * 2_000_000 / total - warn * 1_500_000 / total + test * 800_000 / total + doc
            * 600_000 / total + rust * 300_000 / total + py * 200_000 / total;
        if raw < -1_000_000 {
            -1_000_000
        } else if raw > 1_000_000 {
            1_000_000
        } else {
            raw as i64
        }
    }
}

// ---------------------------------------------------------------- logic

/// Opinion of the logic heuristic, in millionths within [0, 1]: rewards
/// three to seven announced files and a mix of file kinds, penalises very
/// few or many files and long texts.
pub open spec fn logic_opinion(s: Seq<char>) -> int {
    let lines = lines_of(s).len() as int;
    let files = (count_of(s, "MODIFIED:"@) + count_of(s, "NEW:"@) + count_of(s, "DELETED:"@)) as int;
    let kinds = flag(count_of(s, ".rs"@) > 0) + flag(count_of(s, ".py"@) > 0) + flag(count_of(s, ".md"@) > 0)
        + flag(count_of(s, ".toml"@) + count_of(s, ".json"@) + count_of(s, ".yaml"@) > 0);
    let by_files: int = if 3 <= files <= 7 {
        300_000
    } else if files < 3 {
        -100_000
    } else if files > 10 {
        -300_000
    } else {
        0
    };
    let by_length: int = if lines > 50 {
        -200_000
    } else {
        0
    };
    clamp(500_000 + by_files + kinds * 100_000 + by_length, 0, 1_000_000)
}

/// Judges the size and mix of the change.
pub struct LogicExpert;

impl LogicExpert {
    pub fn name(&self) -> (r: &'static str)
        ensures
            r@ == "logic"@,
    {
        "logic"
    }

    pub fn opinion(&self, input: &str) -> (r: i64)
        ensures
            r == logic_opinion(input@),
            0 <= r <= 1_000_000,
    {
        let s = chars_of(input);
        let cs = s.as_slice();
        let lines = split_lines(cs);
        proof {
            assert(lines@.map_values(|l: Vec<char>| l@).len() == lines@.len());
        }
        let files = count_exec(cs, "MODIFIED:") as i128 + count_exec(cs, "NEW:") as i128 + count_exec(cs, "DELETED:")
            as i128;
        let mut kinds: i128 = 0;
        if count_exec(cs, ".rs") > 0 {
            kinds += 1;
        }
        if count_exec(cs, ".py") > 0 {
            kinds += 1;
        }
        if count_exec(cs, ".md") > 0 {
            kinds += 1;
        }
        if count_exec(cs, ".toml") as i128 + count_exec(cs, ".json") as i128 + count_exec(cs, ".yaml") as i128 > 0 {
            kinds += 1;
        }
        let by_files: i128 = if 3 <= files && files <= 7 {
            300_000
        } else if files < 3 {
            -100_000
        } else if files > 10 {
            -300_000
        } else {
            0
        };
        let by_length: i128 = if lines.len() > 50 {
            -200_000
        } else {
            0
        };
        let raw = 500_000 + by_files + kinds * 100_000 + by_length;
        if raw < 0 {
            0
        } else if raw > 1_000_000 {
            1_000_000
        } else {
            raw as i64
        }
    }
}

// ---------------------------------------------------------------- semantic

pub open spec fn announces(l: Seq<char>) -> bool {
    starts_with(l, "MODIFIED:"@) || starts_with(l, "NEW:"@) || starts_with(l, "DELETED:"@)
}

/// Paths named by the announcement lines among the first `k` lines.
pub open spec fn announced_paths(ls: Seq<Seq<char>>, k: int) -> Seq<Seq<char>>
    decreases k,
{
    if k <= 0 {
        Seq::empty()
    } else if announces(ls[k - 1]) && words_of(ls[k - 1]).len() > 1 {
        announced_paths(ls, k - 1).push(words_of(ls[k - 1])[1])
    } else {
        announced_paths(ls, k - 1)
    }
}

/// Position of the last `c` in `p`, or -1.
pub open spec fn last_pos(p: Seq<char>, c: char) -> int
    decreases p.len(),
{
    if p.len() == 0 {
        -1
    } else if p.last() == c {
        p.len() - 1
    } else {
        last_pos(p.drop_last(), c)
    }
}

/// For each path that holds `c`: what stands before its last `c` (or after it).
pub open spec fn parts_around(ps: Seq<Seq<char>>, c: char, after: bool, k: int) -> Seq<Seq<char>>
    decreases k,
{
    if k <= 0 {
        Seq::empty()
    } else if last_pos(ps[k - 1], c) >= 0 {
        let p = ps[k - 1];
        let i = last_pos(p, c);
        parts_around(ps, c, after, k - 1).push(
            if after {
                p.skip(i + 1)
            } else {
                p.take(i)
            },
        )
    } else {
        parts_around(ps, c, after, k - 1)
    }
}

pub open spec fn first_seen(xs: Seq<Seq<char>>, k: int) -> bool {
    forall|j: int| 0 <= j < k ==> #[trigger] xs[j] != xs[k]
}

/// Number of distinct values among the first `k`.
pub open spec fn distinct_count(xs: Seq<Seq<char>>, k: int) -> int
    decreases k,
{
    if k <= 0 {
        0
    } else {
        distinct_count(xs, k - 1) + flag(first_seen(xs, k - 1))
    }
}

/// Pairs of `i` with `i+1 .. k` sharing a prefix longer than three.
pub open spec fn row_hits(fs: Seq<Seq<char>>, i: int, k: int) -> int
    decreases k - i,
{
    if k <= i + 1 {
        0
    } else {
        row_hits(fs, i, k - 1) + flag(common_prefix(fs[i], fs[k - 1]) > 3)
    }
}

pub open spec fn prefix_hits(fs: Seq<Seq<char>>, k: int) -> int
    decreases k,
{
    if k <= 0 {
        0
    } else {
        prefix_hits(fs, k - 1) + row_hits(fs, k - 1, fs.len() as int)
    }
}

pub open spec fn capped(h: int) -> int {
    if h > 2 {
        2
    } else {
        h
    }
}

/// Opinion of the semantic heuristic, in millionths within [0, 1]: zero
/// without announced paths; otherwise one half, adjusted for how many
/// directories are touched, related file names and a single file type.
pub open spec fn semantic_opinion(s: Seq<char>) -> int {
    let ls = lines_of(s);
    let ps = announced_paths(ls, ls.len() as int);
    if ps.len() == 0 {
        0
    } else {
        let dirs = parts_around(ps, '/', false, ps.len() as int);
        let files = parts_around(ps, '/', true, ps.len() as int);
        let exts = parts_around(ps, '.', true, ps.len() as int);
        let d = distinct_count(dirs, dirs.len() as int);
        let by_dirs: int = if d <= 1 {
            400_000
        } else if d <= 2 {
            200_000
        } else if d > 4 {
            -300_000
        } else {
            0
        };
        let h = capped(prefix_hits(files, files.len() as int));
        let by_names: int = if h >= 2 {
            300_000
        } else {
            h * 200_000
        };
        let by_ext: int = if distinct_count(exts, exts.len() as int) == 1 {
            200_000
        } else {
            0
        };
        clamp(500_000 + by_dirs + by_names + by_ext, 0, 1_000_000)
    }
}

pub open spec fn vecs_view(v: Vec<Vec<char>>) -> Seq<Seq<char>> {
    v@.map_values(|x: Vec<char>| x@)
}

fn last_pos_exec(p: &[char], c: char) -> (r: usize)
    ensures
        r as int == last_pos(p@, c) + 1,
        r <= p@.len(),
{
    let mut e: usize = p.len();
    proof {
        assert(p@.take(e as int) =~= p@);
    }
    while e > 0 && p[e - 1] != c
        invariant
            e <= p@.len(),
            last_pos(p@, c) == last_pos(p@.take(e as int), c),
        decreases e,
    {
        proof {
            assert(p@.take(e as int).drop_last() =~= p@.take(e - 1));
        }
        e -= 1;
    }
    e
}

fn parts_around_exec(ps: &Vec<Vec<char>>, c: char, after: bool) -> (r: Vec<Vec<char>>)
    ensures
        vecs_view(r) == parts_around(vecs_view(*ps), c, after, ps@.len() as int),
{
    let ghost v = vecs_view(*ps);
    let mut out: Vec<Vec<char>> = Vec::new();
    let mut k: usize = 0;
    while k < ps.len()
        invariant
            v == vecs_view(*ps),
            k <= v.len(),
            vecs_view(out) == parts_around(v, c, after, k as int),
        decreases v.len() - k,
    {
        let p = ps[k].as_slice();
        let e = last_pos_exec(p, c);
        if e > 0 {
            let part = if after {
                copy_range(p, e, p.len())
            } else {
                copy_range(p, 0, e - 1)
            };
            let ghost before = vecs_view(out);
            out.push(part);
            proof {
                assert(p@.subrange(e as int, p@.len() as int) =~= p@.skip(e as int));
                assert(p@.subrange(0, e - 1) =~= p@.take(e - 1));
                assert(vecs_view(out) =~= before.push(part@));
            }
        }
        k += 1;
    }
    out
}

fn distinct_count_exec(xs: &Vec<Vec<char>>) -> (r: u64)
    ensures
        r == distinct_count(vecs_view(*xs), xs@.len() as int),
{
    let ghost v = vecs_view(*xs);
    let mut n: u64 = 0;
    let mut i: usize = 0;
    while i < xs.len()
        invariant
            v == vecs_view(*xs),
            i <= v.len(),
            n == distinct_count(v, i as int),
            n <= i,
        decreases v.len() - i,
    {
        let mut seen = false;
        let mut j: usize = 0;
        while j < i
            invariant
                v == vecs_view(*xs),
                i < v.len(),
                j <= i,
                seen == exists|k: int| 0 <= k < j && #[trigger] v[k] == v[i as int],
            decreases i - j,
        {
            assert(v[j as int] == xs@[j as int]@);
            assert(v[i as int] == xs@[i as int]@);
            if chars_equal(xs[j].as_slice(), xs[i].as_slice()) {
                seen = true;
            }
            j += 1;
        }
        if !seen {
            n += 1;
        }
        i += 1;
    }
    n
}

/// Pairs of names sharing a prefix longer than three, counted up to two.
fn prefix_hits_capped(fs: &Vec<Vec<char>>) -> (r: u64)
    ensures
        r == capped(prefix_hits(vecs_view(*fs), fs@.len() as int)),
{
    let ghost v = vecs_view(*fs);
    let n = fs.len();
    let mut h: u64 = 0;
    let mut i: usize = 0;
    while i < n
        invariant
            v == vecs_view(*fs),
            n == v.len(),
            i <= n,
            h == capped(prefix_hits(v, i as int)),
        decreases n - i,
    {
        let ghost base = prefix_hits(v, i as int);
        let mut j: usize = i + 1;
        while j < n
            invariant
                v == vecs_view(*fs),
                n == v.len(),
                i < n,
                i + 1 <= j <= n,
                h == capped(base + row_hits(v, i as int, j as int)),
            decreases n - j,
        {
            if common_prefix_len(fs[i].as_slice(), fs[j].as_slice()) > 3 && h < 2 {
                h += 1;
            }
            j += 1;
        }
        i += 1;
    }
    h
}

fn common_prefix_len(a: &[char], b: &[char]) -> (r: usize)
    ensures
        r == common_prefix(a@, b@),
{
    let mut k: usize = 0;
    proof {
        assert(a@.skip(0) =~= a@);
        assert(b@.skip(0) =~= b@);
    }
    while k < a.len() && k < b.len() && a[k] == b[k]
        invariant
            k <= a@.len(),
            k <= b@.len(),
            common_prefix(a@, b@) == k + common_prefix(a@.skip(k as int), b@.skip(k as int)),
        decreases a@.len() - k,
    {
        proof {
            assert(a@.skip(k as int).drop_first() =~= a@.skip(k + 1));
            assert(b@.skip(k as int).drop_first() =~= b@.skip(k + 1));
        }
        k += 1;
    }
    k
}

/// Judges whether the touched files belong together.
pub struct SemanticExpert;

impl SemanticExpert {
    pub fn name(&self) -> (r: &'static str)
        ensures
            r@ == "semantic"@,
    {
        "semantic"
    }

    pub fn opinion(&self, input: &str) -> (r: i64)
        ensures
            r == semantic_opinion(input@),
            0 <= r <= 1_000_000,
    {
        let s = chars_of(input);
        let lines = split_lines(s.as_slice());
        let ghost ls = lines@.map_values(|l: Vec<char>| l@);
        let mut paths: Vec<Vec<char>> = Vec::new();
        let mut k: usize = 0;
        while k < lines.len()
            invariant
                ls == lines@.map_values(|l: Vec<char>| l@),
                ls == lines_of(input@),
                k <= ls.len(),
                vecs_view(paths) == announced_paths(ls, k as int),
            decreases ls.len() - k,
        {
            let l = lines[k].as_slice();
            if begins(l, "MODIFIED:") || begins(l, "NEW:") || begins(l, "DELETED:") {
                let mut words = split_words(l);
                proof {
                    assert(words@.map_values(|w: Vec<char>| w@).len() == words@.len());
                }
                if words.len() > 1 {
                    proof {
                        assert(words@[1]@ == words_of(l@)[1]);
                    }
                    let ghost before = vecs_view(paths);
                    let w = words.swap_remove(1);
                    paths.push(w);
                    proof {
                        assert(vecs_view(paths) =~= before.push(words_of(l@)[1]));
                    }
                }
            }
            k += 1;
        }
        if paths.len() == 0 {
            return 0;
        }
        let dirs = parts_around_exec(&paths, '/', false);
        let files = parts_around_exec(&paths, '/', true);
        let exts = parts_around_exec(&paths, '.', true);
        let d = distinct_count_exec(&dirs);
        let by_dirs: i64 = if d <= 1 {
            400_000
        } else if d <= 2 {
            200_000
        } else if d > 4 {
            -300_000
        } else {
            0
        };
        let h = prefix_hits_capped(&files);
        let by_names: i64 = if h >= 2 {
            300_000
        } else {
            h as i64 * 200_000
        };
        let by_ext: i64 = if distinct_count_exec(&exts) == 1 {
            200_000
        } else {
            0
        };
        let raw = 500_000 + by_dirs + by_names + by_ext;
        if raw < 0 {
            0
        } else if raw > 1_000_000 {
            1_000_000
        } else {
            raw
        }
    }
}

// ---------------------------------------------------------------- fusion

/// One interchangeable heuristic: given the change text, a scalar opinion in
/// millionths.
pub trait ExpertModel {
    /// The opinion the heuristic forms of a text.
    spec fn opinion_of(&self, s: Seq<char>) -> int;

    fn name(&self) -> &'static str;

    fn forward(&self, input: &str) -> (r: i64)
        ensures
            r == self.opinion_of(input@),
    ;
}

impl ExpertModel for SyntaxExpert {
    open spec fn opinion_of(&self, s: Seq<char>) -> int {
        syntax_opinion(s)
    }

    fn name(&self) -> &'static str {
        SyntaxExpert::name(self)
    }

    fn forward(&self, input: &str) -> (r: i64) {
        self.opinion(input)
    }
}

impl ExpertModel for LogicExpert {
    open spec fn opinion_of(&self, s: Seq<char>) -> int {
        logic_opinion(s)
    }

    fn name(&self) -> &'static str {
        LogicExpert::name(self)
    }

    fn forward(&self, input: &str) -> (r: i64) {
        self.opinion(input)
    }
}

impl ExpertModel for SemanticExpert {
    open spec fn opinion_of(&self, s: Seq<char>) -> int {
        semantic_opinion(s)
    }

    fn name(&self) -> &'static str {
        SemanticExpert::name(self)
    }

    fn forward(&self, input: &str) -> (r: i64) {
        self.opinion(input)
    }
}

/// The syntax opinion lies in [-1, 1].
pub proof fn lemma_syntax_range(s: Seq<char>)
    ensures
        -1_000_000 <= syntax_opinion(s) <= 1_000_000,
{
}

/// The logic opinion lies in [0, 1].
pub proof fn lemma_logic_range(s: Seq<char>)
    ensures
        0 <= logic_opinion(s) <= 1_000_000,
{
}

proof fn lemma_row_hits_nonneg(fs: Seq<Seq<char>>, i: int, k: int)
    ensures
        row_hits(fs, i, k) >= 0,
    decreases k - i,
{
    if k > i + 1 {
        lemma_row_hits_nonneg(fs, i, k - 1);
    }
}

proof fn lemma_prefix_hits_nonneg(fs: Seq<Seq<char>>, k: int)
    ensures
        prefix_hits(fs, k) >= 0,
    decreases k,
{
    if k > 0 {
        lemma_prefix_hits_nonneg(fs, k - 1);
        lemma_row_hits_nonneg(fs, k - 1, fs.len() as int);
    }
}

/// The semantic opinion lies in [0, 1], and is zero exactly when no
/// announcement line names a path.
pub proof fn lemma_semantic_range(s: Seq<char>)
    ensures
        0 <= semantic_opinion(s) <= 1_000_000,
        announced_paths(lines_of(s), lines_of(s).len() as int).len() == 0 <==> semantic_opinion(s) == 0,
{
    let ps = announced_paths(lines_of(s), lines_of(s).len() as int);
    let files = parts_around(ps, '/', true, ps.len() as int);
    lemma_prefix_hits_nonneg(files, files.len() as int);
}

/// The three opinions on a text, in expert order.
pub open spec fn opinions(s: Seq<char>) -> Seq<int> {
    seq![syntax_opinion(s), logic_opinion(s), semantic_opinion(s)]
}

/// Weighted sum of the opinions, in millionths (rounded down).
pub open spec fn energy(w: Seq<int>, o: Seq<int>) -> int {
    (w[0] * o[0] + w[1] * o[1] + w[2] * o[2]) / 1_000_000
}

pub open spec fn reasoning_for(score: int) -> Seq<char> {
    if score > 800_000 {
        "High semantic cohesion, valid syntax, and optimal complexity."@
    } else if score > 600_000 {
        "Good changes, but could be improved with tests or docs."@
    } else if score > 400_000 {
        "Changes are ambiguous; waiting for more context."@
    } else {
        "Detected syntax issues, incomplete logic, or poor coherence."@
    }
}

/// `a` scaled to millionths of `t`, rounded down.
pub open spec fn share(a: int, t: int) -> int {
    if t > 0 {
        a * 1_000_000 / t
    } else {
        (-a * 1_000_000) / (-t)
    }
}

pub open spec fn fits_i64(x: int) -> bool {
    i64::MIN <= x <= i64::MAX
}

/// Weights after feedback: each moves by a tenth of its feedback and the
/// three are rescaled to sum to one. Feedback of another length, a zero sum,
/// or a result beyond 64 bits leaves the weights as they are.
pub open spec fn updated_weights(w: Seq<int>, fb: Seq<int>) -> Seq<int> {
    if fb.len() != 3 || w.len() != 3 {
        w
    } else {
        let a = seq![w[0] + fb[0] / 10, w[1] + fb[1] / 10, w[2] + fb[2] / 10];
        let t = a[0] + a[1] + a[2];
        let n = seq![share(a[0], t), share(a[1], t), share(a[2], t)];
        if t == 0 || !fits_i64(n[0]) || !fits_i64(n[1]) || !fits_i64(n[2]) {
            w
        } else {
            n
        }
    }
}

/// The fusion engine: adaptive weights over the three experts.
pub struct MetaBraider {
    attention_weights: Vec<i64>,
}

impl View for MetaBraider {
    type V = Seq<int>;

    closed spec fn view(&self) -> Seq<int> {
        self.attention_weights@.map_values(|w: i64| w as int)
    }
}

fn scaled_share(a: i128, t: i128) -> (r: i128)
    requires
        t != 0,
        -0x1_0000_0000_0000_0000 <= a <= 0x1_0000_0000_0000_0000,
        -0x4_0000_0000_0000_0000 <= t <= 0x4_0000_0000_0000_0000,
    ensures
        r == share(a as int, t as int),
{
    if t > 0 {
        floor_div(a * 1_000_000, t)
    } else {
        floor_div(-a * 1_000_000, -t)
    }
}

impl MetaBraider {
    pub open spec fn wf(&self) -> bool {
        self@.len() == 3
    }

    /// Weights of a new engine, in millionths.
    pub open spec fn new_weights() -> Seq<int> {
        seq![330_000int, 330_000, 340_000]
    }

    /// Equal trust in the three experts.
    pub fn new() -> (r: Self)
        ensures
            r.wf(),
            r@ == Self::new_weights(),
    {
        let r = MetaBraider { attention_weights: vec![330_000, 330_000, 340_000] };
        assert(r@ =~= seq![330_000int, 330_000, 340_000]);
        r
    }

    /// The current weights, in millionths.
    pub fn weights(&self) -> (r: Vec<i64>)
        ensures
            r@.map_values(|w: i64| w as int) == self@,
    {
        self.attention_weights.clone()
    }

    /// Scores the change text: the weighted opinions squashed into (0, 1), a
    /// reason for the score, and each expert's opinion under its name.
    pub fn braid(&self, diff: &str) -> (r: (u64, String, Vec<(String, i64)>))
        requires
            self.wf(),
        ensures
            r.0 == logistic(energy(self@, opinions(diff@))),
            0 < r.0 < 1_000_000,
            r.1@ == reasoning_for(r.0 as int),
            r.2@.map_values(|e: (String, i64)| (e.0@, e.1 as int)) == seq![
                ("syntax"@, syntax_opinion(diff@)),
                ("logic"@, logic_opinion(diff@)),
                ("semantic"@, semantic_opinion(diff@)),
            ],
    {
        let a = SyntaxExpert.opinion(diff);
        let b = LogicExpert.opinion(diff);
        let c = SemanticExpert.opinion(diff);
        let w = &self.attention_weights;
        proof {
            assert(self@[0] == w@[0] as int && self@[1] == w@[1] as int && self@[2] == w@[2] as int);
        }
        let w0 = w[0] as i128;
        let w1 = w[1] as i128;
        let w2 = w[2] as i128;
        assert(-0x8000_0000_0000_0000 * 1_000_000 <= w0 * (a as i128) <= 0x8000_0000_0000_0000 * 1_000_000) by (nonlinear_arith)
            requires -0x8000_0000_0000_0000 <= w0 < 0x8000_0000_0000_0000, -1_000_000 <= a <= 1_000_000;
        assert(-0x8000_0000_0000_0000 * 1_000_000 <= w1 * (b as i128) <= 0x8000_0000_0000_0000 * 1_000_000) by (nonlinear_arith)
            requires -0x8000_0000_0000_0000 <= w1 < 0x8000_0000_0000_0000, 0 <= b <= 1_000_000;
        assert(-0x8000_0000_0000_0000 * 1_000_000 <= w2 * (c as i128) <= 0x8000_0000_0000_0000 * 1_000_000) by (nonlinear_arith)
            requires -0x8000_0000_0000_0000 <= w2 < 0x8000_0000_0000_0000, 0 <= c <= 1_000_000;
        let e = floor_div(w0 * (a as i128) + w1 * (b as i128) + w2 * (c as i128), 1_000_000);
        let score = logistic_exec(e);
        let reason = if score > 800_000 {
            "High semantic cohesion, valid syntax, and optimal complexity."
        } else if score > 600_000 {
            "Good changes, but could be improved with tests or docs."
        } else if score > 400_000 {
            "Changes are ambiguous; waiting for more context."
        } else {
            "Detected syntax issues, incomplete logic, or poor coherence."
        };
        let mut breakdown: Vec<(String, i64)> = Vec::new();
        breakdown.push((String::from_str("syntax"), a));
        breakdown.push((String::from_str("logic"), b));
        breakdown.push((String::from_str("semantic"), c));
        proof {
            assert(breakdown@.map_values(|e: (String, i64)| (e.0@, e.1 as int)) =~= seq![
                ("syntax"@, syntax_opinion(diff@)),
                ("logic"@, logic_opinion(diff@)),
                ("semantic"@, semantic_opinion(diff@)),
            ]);
        }
        (score, String::from_str(reason), breakdown)
    }

    /// Moves each weight by a tenth of its feedback and rescales the three to
    /// sum to one. Feedback whose length is not three is ignored.
    pub fn update_weights(&mut self, feedback: &[i64])
        requires
            old(self).wf(),
        ensures
            final(self).wf(),
            final(self)@ == updated_weights(old(self)@, feedback@.map_values(|f: i64| f as int)),
            feedback@.len() != 3 ==> final(self)@ == old(self)@,
    {
        let ghost fb = feedback@.map_values(|f: i64| f as int);
        if feedback.len() != 3 {
            return;
        }
        proof {
            assert(self@[0] == self.attention_weights@[0] as int);
            assert(self@[1] == self.attention_weights@[1] as int);
            assert(self@[2] == self.attention_weights@[2] as int);
        }
        let a0 = self.attention_weights[0] as i128 + floor_div(feedback[0] as i128, 10);
        let a1 = self.attention_weights[1] as i128 + floor_div(feedback[1] as i128, 10);
        let a2 = self.attention_weights[2] as i128 + floor_div(feedback[2] as i128, 10);
        let t = a0 + a1 + a2;
        if t == 0 {
            return;
        }
        let n0 = scaled_share(a0, t);
        let n1 = scaled_share(a1, t);
        let n2 = scaled_share(a2, t);
        if n0 < i64::MIN as i128 || n0 > i64::MAX as i128 || n1 < i64::MIN as i128 || n1 > i64::MAX as i128 || n2
            < i64::MIN as i128 || n2 > i64::MAX as i128 {
            return;
        }
        let ghost before = self@;
        self.attention_weights = vec![n0 as i64, n1 as i64, n2 as i64];
        proof {
            assert(self@ =~= updated_weights(before, fb));
        }
    }
}

impl Default for MetaBraider {
    fn default() -> (r: Self)
        ensures
            r.wf(),
            r@ == Self::new_weights(),
    {
        Self::new()
    }
}

/// Fused scores always lie strictly between zero and one.
pub proof fn lemma_braid_in_open_interval(w: Seq<int>, s: Seq<char>)
    requires
        w.len() == 3,
    ensures
        0 < logistic(energy(w, opinions(s))) < 1_000_000,
{
    crate::fixed::lemma_logistic_open_interval(energy(w, opinions(s)));
}

} // verus!
