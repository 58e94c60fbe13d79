//! Decisions of the autonomous agent: what to do with detected changes, how
//! to word the commit, and what to learn from it. The agent's loop, the
//! repository and the disk stay outside; they hand text in and carry the
//! chosen action out.
use vstd::prelude::*;
use crate::bifm::{FitnessTopology, delta_for_score, kappa_for_files, sigma_for_risk};
use crate::braider::{MetaBraider, energy, opinions};
use crate::braider::{reasoning_for, syntax_opinion, logic_opinion, semantic_opinion};
use crate::diff::{changes_view, lines_of, parse, parse_text, split_lines, split_words, words_of};
use crate::fitness::{FitnessHistory, HistoricalCommit, appended, adjusted_score};
use crate::fixed::logistic;
use crate::scl::{
    Language, LanguageRenderer, SCLCommit, SemanticToken, canonical, compose, default_dictionaries, token_name,
    word_for,
};
use crate::text::{chars_of, contains, ends, ends_with, has};

verus! {

/// What the agent does with the current changes.
#[derive(Debug, PartialEq)]
pub enum AgentAction {
    /// Commit with this message.
    Commit(String),
    /// Save a local checkpoint, not pushed.
    GhostCommit,
    /// Too large: split by hand.
    Split,
    /// Do nothing yet.
    Wait,
}

/// The tokens that describe a change: one action, one domain, then any
/// modifiers, chosen by words the text holds.
pub open spec fn tokens_for(s: Seq<char>) -> Seq<SemanticToken> {
    let action = if contains(s, "fix"@) || contains(s, "bug"@) {
        SemanticToken::Fix
    } else if contains(s, "NEW:"@) {
        SemanticToken::Add
    } else if contains(s, "refactor"@) {
        SemanticToken::Refactor
    } else {
        SemanticToken::Update
    };
    let domain = if contains(s, "auth"@) {
        SemanticToken::Authentication
    } else if contains(s, "security"@) || contains(s, "sec"@) {
        SemanticToken::Security
    } else if contains(s, "perf"@) || contains(s, "performance"@) {
        SemanticToken::Performance
    } else if contains(s, "test"@) {
        SemanticToken::Testing
    } else if contains(s, ".md"@) {
        SemanticToken::Documentation
    } else {
        SemanticToken::Feature
    };
    let edge: Seq<SemanticToken> = if contains(s, "edge"@) || contains(s, "corner"@) {
        seq![SemanticToken::EdgeCase]
    } else {
        Seq::empty()
    };
    let enhance: Seq<SemanticToken> = if contains(s, "enhance"@) || contains(s, "improve"@) {
        seq![SemanticToken::Enhancement]
    } else {
        Seq::empty()
    };
    seq![action, domain] + edge + enhance
}

/// Extracts the tokens that describe a change.
pub fn extract_semantic_tokens(diff: &str) -> (r: Vec<SemanticToken>)
    ensures
        r@ == tokens_for(diff@),
{
    let s = chars_of(diff);
    let c = s.as_slice();
    let mut tokens: Vec<SemanticToken> = Vec::new();
    if has(c, "fix") || has(c, "bug") {
        tokens.push(SemanticToken::Fix);
    } else if has(c, "NEW:") {
        tokens.push(SemanticToken::Add);
    } else if has(c, "refactor") {
        tokens.push(SemanticToken::Refactor);
    } else {
        tokens.push(SemanticToken::Update);
    }
    if has(c, "auth") {
        tokens.push(SemanticToken::Authentication);
    } else if has(c, "security") || has(c, "sec") {
        tokens.push(SemanticToken::Security);
    } else if has(c, "perf") || has(c, "performance") {
        tokens.push(SemanticToken::Performance);
    } else if has(c, "test") {
        tokens.push(SemanticToken::Testing);
    } else if has(c, ".md") {
        tokens.push(SemanticToken::Documentation);
    } else {
        tokens.push(SemanticToken::Feature);
    }
    if has(c, "edge") || has(c, "corner") {
        tokens.push(SemanticToken::EdgeCase);
    }
    if has(c, "enhance") || has(c, "improve") {
        tokens.push(SemanticToken::Enhancement);
    }
    assert(tokens@ =~= tokens_for(diff@));
    tokens
}

/// The decimal digits of `n`.
pub open spec fn decimal(n: nat) -> Seq<char>
    decreases n,
{
    if n < 10 {
        seq![(48 + n) as char]
    } else {
        decimal(n / 10).push((48 + n % 10) as char)
    }
}

/// Appends the decimal digits of `n`.
pub fn push_decimal(s: &mut String, n: u64)
    ensures
        final(s)@ == old(s)@ + decimal(n as nat),
    decreases n,
{
    if n >= 10 {
        push_decimal(s, n / 10);
    }
    let d = match std::char::from_u32(48 + (n % 10) as u32) {
        Some(c) => c,
        None => {
            proof {
                assert(false);
            }
            '0'
        },
    };
    s.push(d);
    assert(s@ =~= old(s)@ + decimal(n as nat));
}

/// The second word of each line that has one: the announced paths.
pub open spec fn listed_files(ls: Seq<Seq<char>>, k: int) -> Seq<Seq<char>>
    decreases k,
{
    if k <= 0 {
        Seq::empty()
    } else if words_of(ls[k - 1]).len() > 1 {
        listed_files(ls, k - 1).push(words_of(ls[k - 1])[1])
    } else {
        listed_files(ls, k - 1)
    }
}

/// The conventional type of a commit touching `fs`, with its emoji.
pub open spec fn commit_kind(fs: Seq<Seq<char>>) -> (Seq<char>, Seq<char>) {
    if exists|i: int| 0 <= i < fs.len() && contains(#[trigger] fs[i], "test"@) {
        ("test"@, "🧪"@)
    } else if exists|i: int| 0 <= i < fs.len() && ends_with(#[trigger] fs[i], ".md"@) {
        ("docs"@, "📝"@)
    } else if exists|i: int| 0 <= i < fs.len() && (contains(#[trigger] fs[i], "fix"@) || contains(fs[i], "bug"@)) {
        ("fix"@, "🐛"@)
    } else {
        ("feat"@, "✨"@)
    }
}

/// `<emoji> <type>: update <file or count> [<clock>]`.
pub open spec fn traditional_message(s: Seq<char>, clock: Seq<char>) -> Seq<char> {
    let fs = listed_files(lines_of(s), lines_of(s).len() as int);
    let (kind, emoji) = commit_kind(fs);
    let what = if fs.len() == 1 {
        fs[0]
    } else {
        decimal(fs.len()) + " files"@
    };
    emoji + " "@ + kind + ": update "@ + what + " ["@ + clock + "]"@
}

/// Relies on `chrono::Utc::now` and `DateTime::format("%H:%M")`: the current
/// hour and minute. Nothing is promised of its value.
#[verifier::external_body]
fn utc_clock_hm() -> (r: String) {
    chrono::Utc::now().format("%H:%M").to_string()
}

/// The files each line announces, in order.
fn listed_files_exec(lines: &Vec<Vec<char>>) -> (r: Vec<Vec<char>>)
    ensures
        r@.map_values(|f: Vec<char>| f@) == listed_files(
            lines@.map_values(|l: Vec<char>| l@),
            lines@.len() as int,
        ),
{
    let ghost ls = lines@.map_values(|l: Vec<char>| l@);
    let mut files: Vec<Vec<char>> = Vec::new();
    let mut k: usize = 0;
    while k < lines.len()
        invariant
            ls == lines@.map_values(|l: Vec<char>| l@),
            k <= ls.len(),
            files@.map_values(|f: Vec<char>| f@) == listed_files(ls, k as int),
        decreases ls.len() - k,
    {
        let mut words = split_words(lines[k].as_slice());
        proof {
            assert(words@.map_values(|w: Vec<char>| w@).len() == words@.len());
        }
        if words.len() > 1 {
            proof {
                assert(words@[1]@ == words_of(ls[k as int])[1]);
            }
            let ghost before = files@.map_values(|f: Vec<char>| f@);
            let w = words.swap_remove(1);
            files.push(w);
            proof {
                assert(files@.map_values(|f: Vec<char>| f@) =~= before.push(words_of(ls[k as int])[1]));
            }
        }
        k += 1;
    }
    files
}

/// A conventional commit message for the change, stamped with `clock`.
pub fn generate_traditional_message(diff: &str, clock: &str) -> (r: String)
    ensures
        r@ == traditional_message(diff@, clock@),
{
    let s = chars_of(diff);
    let lines = split_lines(s.as_slice());
    let files = listed_files_exec(&lines);
    let ghost fs = files@.map_values(|f: Vec<char>| f@);
    let mut test = false;
    let mut docs = false;
    let mut fix = false;
    let mut i: usize = 0;
    while i < files.len()
        invariant
            fs == files@.map_values(|f: Vec<char>| f@),
            i <= fs.len(),
            test == exists|k: int| 0 <= k < i && contains(#[trigger] fs[k], "test"@),
            docs == exists|k: int| 0 <= k < i && ends_with(#[trigger] fs[k], ".md"@),
            fix == exists|k: int| 0 <= k < i && (contains(#[trigger] fs[k], "fix"@) || contains(fs[k], "bug"@)),
        decreases fs.len() - i,
    {
        let f = files[i].as_slice();
        assert(fs[i as int] == f@);
        if has(f, "test") {
            test = true;
        }
        if ends(f, ".md") {
            docs = true;
        }
        if has(f, "fix") || has(f, "bug") {
            fix = true;
        }
        i += 1;
    }
    let (kind, emoji) = if test {
        ("test", "🧪")
    } else if docs {
        ("docs", "📝")
    } else if fix {
        ("fix", "🐛")
    } else {
        ("feat", "✨")
    };
    let mut r = String::from_str(emoji);
    r.append(" ");
    r.append(kind);
    r.append(": update ");
    if files.len() == 1 {
        let name = crate::text::string_of(files[0].as_slice());
        r.append(name.as_str());
    } else {
        push_decimal(&mut r, files.len() as u64);
        r.append(" files");
    }
    r.append(" [");
    r.append(clock);
    r.append("]");
    r
}

/// What the learning statistics advise about the threshold.
#[derive(Debug, Clone, Copy, PartialEq, Eq, Structural)]
pub enum ThresholdAdvice {
    /// Raise it to this value (millionths).
    Raise(u64),
    /// Lower it to this value (millionths).
    Lower(u64),
    Keep,
}

/// The scoring context of one watched repository: the fusion engine, the
/// history, and the agent's settings.
pub struct AgentCore {
    pub braider: MetaBraider,
    pub history: FitnessHistory,
    /// Commit threshold in millionths.
    pub fitness_threshold: u64,
    pub scl_enabled: bool,
    pub language: Language,
}

/// Lines of the text that hold nothing but white space, or no lines at all.
pub open spec fn is_blank(s: Seq<char>) -> bool {
    forall|i: int| 0 <= i < s.len() ==> crate::diff::is_space(#[trigger] s[i])
}

pub open spec fn fused_score(b: MetaBraider, s: Seq<char>) -> int {
    logistic(energy(b@, opinions(s)))
}

/// The topology the agent derives for a change text.
pub open spec fn topology_for(b: MetaBraider, s: Seq<char>) -> FitnessTopology {
    let n = lines_of(s).len() as int;
    FitnessTopology {
        kappa: kappa_for_files(n) as u8,
        sigma: sigma_for_risk(
            n * 50,
            contains(s, "test"@),
            contains(s, "BREAKING"@) || contains(s, "breaking"@) || contains(s, "!:"@),
        ) as u8,
        delta: delta_for_score(fused_score(b, s)) as u8,
    }
}

/// `<canonical string>\n\nSCL: <rendering>`.
pub open spec fn scl_message(b: MetaBraider, lang: Language, s: Seq<char>) -> Seq<char> {
    let ts = tokens_for(s);
    canonical(ts, Some(topology_for(b, s))) + "\n\nSCL: "@ + compose(
        ts.map_values(|t: SemanticToken| word_for(default_dictionaries(), lang, token_name(t))),
    )
}

impl AgentCore {
    pub open spec fn wf(&self) -> bool {
        self.braider.wf() && self.history.wf()
    }

    pub fn new(threshold: u64, scl_enabled: bool, language: Language, history: FitnessHistory) -> (r: Self)
        requires
            history.wf(),
        ensures
            r.wf(),
            r.braider@ == MetaBraider::new_weights(),
            r.history == history,
            r.fitness_threshold == threshold,
            r.scl_enabled == scl_enabled,
            r.language == language,
    {
        AgentCore { braider: MetaBraider::new(), history, fitness_threshold: threshold, scl_enabled, language }
    }

    /// The fused score adjusted by the history for the number of announced
    /// files, with the reason and the breakdown of the unadjusted score.
    pub fn calculate_fitness(&self, diff: &str) -> (r: (i128, String, Vec<(String, i64)>))
        requires
            self.wf(),
        ensures
            r.0 == adjusted_score(fused_score(self.braider, diff@), self.history.commits@, parse_text(diff@).len() as int),
            r.1@ == reasoning_for(fused_score(self.braider, diff@)),
            r.2@.map_values(|e: (String, i64)| (e.0@, e.1 as int)) == seq![
                ("syntax"@, syntax_opinion(diff@)),
                ("logic"@, logic_opinion(diff@)),
                ("semantic"@, semantic_opinion(diff@)),
            ],
    {
        let (fitness, reasoning, breakdown) = self.braider.braid(diff);
        let files = parse(diff);
        proof {
            assert(changes_view(files@).len() == files@.len());
        }
        let adjusted = self.history.adjusted_fitness(fitness, files.len());
        (adjusted, reasoning, breakdown)
    }

    /// The topology of a change: curvature from its line count, stability
    /// from test and breaking-change mentions (fifty changed lines assumed
    /// per line), direction from the fused score.
    pub fn calculate_fitness_topology(&self, diff: &str) -> (r: FitnessTopology)
        requires
            self.wf(),
        ensures
            r == topology_for(self.braider, diff@),
            r.wf(),
    {
        let s = chars_of(diff);
        let c = s.as_slice();
        let lines = split_lines(c);
        proof {
            assert(lines@.map_values(|l: Vec<char>| l@).len() == lines@.len());
        }
        let n = lines.len();
        let line_changes: usize = match n.checked_mul(50) {
            Some(v) => v,
            None => usize::MAX,
        };
        let has_tests = has(c, "test");
        let has_breaking = has(c, "BREAKING") || has(c, "breaking") || has(c, "!:");
        let (score, _, _) = self.braider.braid(diff);
        FitnessTopology::from_analysis(n, line_changes, has_tests, has_breaking, score)
    }

    /// The compressed commit message: canonical string with topology, then the
    /// rendering in the agent's language.
    pub fn generate_scl_message(&self, diff: &str) -> (r: String)
        requires
            self.wf(),
        ensures
            r@ == scl_message(self.braider, self.language, diff@),
    {
        let tokens = extract_semantic_tokens(diff);
        let topology = self.calculate_fitness_topology(diff);
        let commit = SCLCommit::with_fitness(tokens, String::from_str("autonomous-agent"), Some(topology));
        let renderer = LanguageRenderer::new();
        let message = renderer.render(&commit, self.language);
        let mut r = commit.braille.clone();
        r.append("\n\nSCL: ");
        r.append(message.as_str());
        r
    }

    /// The commit message for a change, compressed or conventional.
    pub fn generate_commit_message(&self, diff: &str, clock: &str) -> (r: String)
        requires
            self.wf(),
        ensures
            r@ == (if self.scl_enabled {
                scl_message(self.braider, self.language, diff@)
            } else {
                traditional_message(diff@, clock@)
            }),
    {
        if self.scl_enabled {
            self.generate_scl_message(diff)
        } else {
            generate_traditional_message(diff, clock)
        }
    }

    /// Chooses an action for a change text, with `clock` for the message:
    /// nothing to do on blank text; commit above the threshold; a local
    /// checkpoint above 0.4; split texts over 5000 bytes; otherwise wait.
    pub fn decide_at(&self, diff: &str, clock: &str) -> (r: AgentAction)
        requires
            self.wf(),
        ensures
            is_blank(diff@) ==> r == AgentAction::Wait,
            !is_blank(diff@) && fused_score(self.braider, diff@) > self.fitness_threshold ==> (r matches AgentAction::Commit(m) && m@ == (if self.scl_enabled {
                scl_message(self.braider, self.language, diff@)
            } else {
                traditional_message(diff@, clock@)
            })),
            !is_blank(diff@) && fused_score(self.braider, diff@) <= self.fitness_threshold && fused_score(self.braider, diff@) > 400_000 ==> r == AgentAction::GhostCommit,
            !is_blank(diff@) && fused_score(self.braider, diff@) <= self.fitness_threshold && fused_score(self.braider, diff@) <= 400_000 ==> r == (if diff.len() > 5000 {
                AgentAction::Split
            } else {
                AgentAction::Wait
            }),
    {
        let s = chars_of(diff);
        let mut blank = true;
        let mut i: usize = 0;
        while i < s.len()
            invariant
                s@ == diff@,
                i <= s@.len(),
                blank == forall|k: int| 0 <= k < i ==> crate::diff::is_space(#[trigger] s@[k]),
            decreases s@.len() - i,
        {
            if !crate::diff::is_space_exec(s[i]) {
                blank = false;
            }
            i += 1;
        }
        if blank {
            return AgentAction::Wait;
        }
        let (fitness, _, _) = self.braider.braid(diff);
        if fitness > self.fitness_threshold {
            AgentAction::Commit(self.generate_commit_message(diff, clock))
        } else if fitness > 400_000 {
            AgentAction::GhostCommit
        } else if diff.len() > 5000 {
            AgentAction::Split
        } else {
            AgentAction::Wait
        }
    }

    /// Chooses an action for a change text, stamping any conventional message
    /// with the current time.
    pub fn decide(&self, diff: &str) -> (r: AgentAction)
        requires
            self.wf(),
        ensures
            is_blank(diff@) ==> r == AgentAction::Wait,
            !is_blank(diff@) && fused_score(self.braider, diff@) <= self.fitness_threshold && fused_score(self.braider, diff@) > 400_000 ==> r == AgentAction::GhostCommit,
            !is_blank(diff@) && fused_score(self.braider, diff@) > self.fitness_threshold ==> r is Commit,
            !is_blank(diff@) && fused_score(self.braider, diff@) <= self.fitness_threshold && fused_score(self.braider, diff@) <= 400_000 ==> r == (if diff.len() > 5000 {
                AgentAction::Split
            } else {
                AgentAction::Wait
            }),
    {
        let clock = utc_clock_hm();
        self.decide_at(diff, clock.as_str())
    }

    /// Records a committed change in the history: its fused score and the
    /// number of files it announces. Returns whether the history size is a multiple of ten, when
    /// learning statistics are due.
    pub fn learn_from_commit(&mut self, message: &str, analysis: &str, timestamp: String) -> (r: bool)
        requires
            old(self).wf(),
        ensures
            final(self).wf(),
            final(self).history.commits@ == appended(old(self).history.commits@, final(self).history.commits@.last()),
            final(self).history.commits@.last().timestamp == timestamp,
            final(self).history.commits@.last().fitness == fused_score(old(self).braider, analysis@),
            final(self).history.commits@.last().file_count == parse_text(analysis@).len(),
            final(self).history.commits@.last().message@ == message@,
            final(self).braider == old(self).braider,
            r == (final(self).history.commits@.len() % 10 == 0),
    {
        let (fitness, _, _) = self.braider.braid(analysis);
        let files = parse(analysis);
        proof {
            assert(changes_view(files@).len() == files@.len());
        }
        let entry = HistoricalCommit {
            timestamp,
            fitness,
            file_count: files.len(),
            message: String::from_str(message),
        };
        self.history.add_commit(entry);
        self.history.commits.len() % 10 == 0
    }

    /// Advice on the threshold from the mean fitness of the history: raise it
    /// when the mean is more than 0.1 above, lower it when more than 0.1
    /// below, each time to the mean less or plus 0.05.
    pub fn threshold_advice(&self) -> (r: ThresholdAdvice)
        requires
            self.wf(),
        ensures
            ({
                let m = crate::fitness::mean_fitness(self.history.commits@);
                let t = self.fitness_threshold as int;
                if m > t + 100_000 {
                    r == ThresholdAdvice::Raise((m - 50_000) as u64)
                } else if m + 100_000 < t {
                    r == ThresholdAdvice::Lower((m + 50_000) as u64)
                } else {
                    r == ThresholdAdvice::Keep
                }
            }),
    {
        let m = self.history.average_fitness() as u128;
        let t = self.fitness_threshold as u128;
        if m > t + 100_000 {
            ThresholdAdvice::Raise((m - 50_000) as u64)
        } else if m + 100_000 < t {
            ThresholdAdvice::Lower((m + 50_000) as u64)
        } else {
            ThresholdAdvice::Keep
        }
    }
}

} // verus!
