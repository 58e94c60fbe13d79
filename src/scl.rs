//! Closed-vocabulary semantic tokens, their canonical codes, and rendering
//! of token sequences in several locales.
use vstd::prelude::*;
use crate::bifm::{FitnessTopology, decode_symbol};
use crate::text::{chars_of, same};

verus! {

/// The code of one semantic token.
#[derive(Debug, Clone, PartialEq)]
pub struct BrailleToken(pub String);

/// Member of the fixed vocabulary: five actions, five domains, four modifiers.
#[derive(Debug, Clone, Copy, PartialEq, Eq, Structural)]
pub enum SemanticToken {
    // Actions
    Fix,
    Add,
    Remove,
    Update,
    Refactor,

    // Domains
    Authentication,
    Security,
    Performance,
    Testing,
    Documentation,

    // Modifiers
    EdgeCase,
    Feature,
    Bug,
    Enhancement,
}

/// The fixed code of each token.
pub open spec fn token_code(t: SemanticToken) -> Seq<char> {
    match t {
        SemanticToken::Fix => "⠋⠊⠭"@,
        SemanticToken::Add => "⠁⠙⠙"@,
        SemanticToken::Remove => "⠗⠑⠍"@,
        SemanticToken::Update => "⠥⠏⠙"@,
        SemanticToken::Refactor => "⠗⠑⠋"@,
        SemanticToken::Authentication => "⠁⠥⠞⠓"@,
        SemanticToken::Security => "⠎⠑⠉"@,
        SemanticToken::Performance => "⠏⠑⠗⠋"@,
        SemanticToken::Testing => "⠞⠑⠎⠞"@,
        SemanticToken::Documentation => "⠙⠕⠉"@,
        SemanticToken::EdgeCase => "⠑⠙⠛⠑"@,
        SemanticToken::Feature => "⠋⠑⠁⠞"@,
        SemanticToken::Bug => "⠃⠥⠛"@,
        SemanticToken::Enhancement => "⠑⠝⠓"@,
    }
}

/// The symbolic name of each token.
pub open spec fn token_name(t: SemanticToken) -> Seq<char> {
    match t {
        SemanticToken::Fix => "Fix"@,
        SemanticToken::Add => "Add"@,
        SemanticToken::Remove => "Remove"@,
        SemanticToken::Update => "Update"@,
        SemanticToken::Refactor => "Refactor"@,
        SemanticToken::Authentication => "Authentication"@,
        SemanticToken::Security => "Security"@,
        SemanticToken::Performance => "Performance"@,
        SemanticToken::Testing => "Testing"@,
        SemanticToken::Documentation => "Documentation"@,
        SemanticToken::EdgeCase => "EdgeCase"@,
        SemanticToken::Feature => "Feature"@,
        SemanticToken::Bug => "Bug"@,
        SemanticToken::Enhancement => "Enhancement"@,
    }
}

/// The token whose code is `s`, if any.
pub open spec fn token_of_code(s: Seq<char>) -> Option<SemanticToken> {
    if s == "⠋⠊⠭"@ {
        Some(SemanticToken::Fix)
    } else if s == "⠁⠙⠙"@ {
        Some(SemanticToken::Add)
    } else if s == "⠗⠑⠍"@ {
        Some(SemanticToken::Remove)
    } else if s == "⠥⠏⠙"@ {
        Some(SemanticToken::Update)
    } else if s == "⠗⠑⠋"@ {
        Some(SemanticToken::Refactor)
    } else if s == "⠁⠥⠞⠓"@ {
        Some(SemanticToken::Authentication)
    } else if s == "⠎⠑⠉"@ {
        Some(SemanticToken::Security)
    } else if s == "⠏⠑⠗⠋"@ {
        Some(SemanticToken::Performance)
    } else if s == "⠞⠑⠎⠞"@ {
        Some(SemanticToken::Testing)
    } else if s == "⠙⠕⠉"@ {
        Some(SemanticToken::Documentation)
    } else if s == "⠑⠙⠛⠑"@ {
        Some(SemanticToken::EdgeCase)
    } else if s == "⠋⠑⠁⠞"@ {
        Some(SemanticToken::Feature)
    } else if s == "⠃⠥⠛"@ {
        Some(SemanticToken::Bug)
    } else if s == "⠑⠝⠓"@ {
        Some(SemanticToken::Enhancement)
    } else {
        None
    }
}

impl SemanticToken {
    /// The token's code.
    pub fn to_braille(&self) -> (r: BrailleToken)
        ensures
            r.0@ == token_code(*self),
    {
        let code = match self {
            SemanticToken::Fix => "⠋⠊⠭",
            SemanticToken::Add => "⠁⠙⠙",
            SemanticToken::Remove => "⠗⠑⠍",
            SemanticToken::Update => "⠥⠏⠙",
            SemanticToken::Refactor => "⠗⠑⠋",
            SemanticToken::Authentication => "⠁⠥⠞⠓",
            SemanticToken::Security => "⠎⠑⠉",
            SemanticToken::Performance => "⠏⠑⠗⠋",
            SemanticToken::Testing => "⠞⠑⠎⠞",
            SemanticToken::Documentation => "⠙⠕⠉",
            SemanticToken::EdgeCase => "⠑⠙⠛⠑",
            SemanticToken::Feature => "⠋⠑⠁⠞",
            SemanticToken::Bug => "⠃⠥⠛",
            SemanticToken::Enhancement => "⠑⠝⠓",
        };
        BrailleToken(String::from_str(code))
    }

    /// The token with the given code, or `None` for any other string.
    pub fn from_braille(braille: &BrailleToken) -> (r: Option<Self>)
        ensures
            r == token_of_code(braille.0@),
    {
        let s = chars_of(braille.0.as_str());
        Self::from_code_chars(s.as_slice())
    }

    pub fn from_code_chars(s: &[char]) -> (r: Option<Self>)
        ensures
            r == token_of_code(s@),
    {
        if same(s, "⠋⠊⠭") {
            Some(SemanticToken::Fix)
        } else if same(s, "⠁⠙⠙") {
            Some(SemanticToken::Add)
        } else if same(s, "⠗⠑⠍") {
            Some(SemanticToken::Remove)
        } else if same(s, "⠥⠏⠙") {
            Some(SemanticToken::Update)
        } else if same(s, "⠗⠑⠋") {
            Some(SemanticToken::Refactor)
        } else if same(s, "⠁⠥⠞⠓") {
            Some(SemanticToken::Authentication)
        } else if same(s, "⠎⠑⠉") {
            Some(SemanticToken::Security)
        } else if same(s, "⠏⠑⠗⠋") {
            Some(SemanticToken::Performance)
        } else if same(s, "⠞⠑⠎⠞") {
            Some(SemanticToken::Testing)
        } else if same(s, "⠙⠕⠉") {
            Some(SemanticToken::Documentation)
        } else if same(s, "⠑⠙⠛⠑") {
            Some(SemanticToken::EdgeCase)
        } else if same(s, "⠋⠑⠁⠞") {
            Some(SemanticToken::Feature)
        } else if same(s, "⠃⠥⠛") {
            Some(SemanticToken::Bug)
        } else if same(s, "⠑⠝⠓") {
            Some(SemanticToken::Enhancement)
        } else {
            None
        }
    }

    /// The token's symbolic name.
    pub fn name(&self) -> (r: &'static str)
        ensures
            r@ == token_name(*self),
    {
        match self {
            SemanticToken::Fix => "Fix",
            SemanticToken::Add => "Add",
            SemanticToken::Remove => "Remove",
            SemanticToken::Update => "Update",
            SemanticToken::Refactor => "Refactor",
            SemanticToken::Authentication => "Authentication",
            SemanticToken::Security => "Security",
            SemanticToken::Performance => "Performance",
            SemanticToken::Testing => "Testing",
            SemanticToken::Documentation => "Documentation",
            SemanticToken::EdgeCase => "EdgeCase",
            SemanticToken::Feature => "Feature",
            SemanticToken::Bug => "Bug",
            SemanticToken::Enhancement => "Enhancement",
        }
    }
}

/// Every code is at least three characters long and holds no `.`.
pub proof fn lemma_code_shape(t: SemanticToken)
    ensures
        token_code(t).len() >= 3,
        forall|i: int| 0 <= i < token_code(t).len() ==> #[trigger] token_code(t)[i] != '.',
{
    reveal_strlit("⠋⠊⠭");
    assert("⠋⠊⠭"@.len() == 3 && "⠋⠊⠭"@[0] == '⠋' && "⠋⠊⠭"@[1] == '⠊' && "⠋⠊⠭"@[2] == '⠭');
    reveal_strlit("⠁⠙⠙");
    assert("⠁⠙⠙"@.len() == 3 && "⠁⠙⠙"@[0] == '⠁' && "⠁⠙⠙"@[1] == '⠙' && "⠁⠙⠙"@[2] == '⠙');
    reveal_strlit("⠗⠑⠍");
    assert("⠗⠑⠍"@.len() == 3 && "⠗⠑⠍"@[0] == '⠗' && "⠗⠑⠍"@[1] == '⠑' && "⠗⠑⠍"@[2] == '⠍');
    reveal_strlit("⠥⠏⠙");
    assert("⠥⠏⠙"@.len() == 3 && "⠥⠏⠙"@[0] == '⠥' && "⠥⠏⠙"@[1] == '⠏' && "⠥⠏⠙"@[2] == '⠙');
    reveal_strlit("⠗⠑⠋");
    assert("⠗⠑⠋"@.len() == 3 && "⠗⠑⠋"@[0] == '⠗' && "⠗⠑⠋"@[1] == '⠑' && "⠗⠑⠋"@[2] == '⠋');
    reveal_strlit("⠁⠥⠞⠓");
    assert("⠁⠥⠞⠓"@.len() == 4 && "⠁⠥⠞⠓"@[0] == '⠁' && "⠁⠥⠞⠓"@[1] == '⠥' && "⠁⠥⠞⠓"@[2] == '⠞' && "⠁⠥⠞⠓"@[3] == '⠓');
    reveal_strlit("⠎⠑⠉");
    assert("⠎⠑⠉"@.len() == 3 && "⠎⠑⠉"@[0] == '⠎' && "⠎⠑⠉"@[1] == '⠑' && "⠎⠑⠉"@[2] == '⠉');
    reveal_strlit("⠏⠑⠗⠋");
    assert("⠏⠑⠗⠋"@.len() == 4 && "⠏⠑⠗⠋"@[0] == '⠏' && "⠏⠑⠗⠋"@[1] == '⠑' && "⠏⠑⠗⠋"@[2] == '⠗' && "⠏⠑⠗⠋"@[3] == '⠋');
    reveal_strlit("⠞⠑⠎⠞");
    assert("⠞⠑⠎⠞"@.len() == 4 && "⠞⠑⠎⠞"@[0] == '⠞' && "⠞⠑⠎⠞"@[1] == '⠑' && "⠞⠑⠎⠞"@[2] == '⠎' && "⠞⠑⠎⠞"@[3] == '⠞');
    reveal_strlit("⠙⠕⠉");
    assert("⠙⠕⠉"@.len() == 3 && "⠙⠕⠉"@[0] == '⠙' && "⠙⠕⠉"@[1] == '⠕' && "⠙⠕⠉"@[2] == '⠉');
    reveal_strlit("⠑⠙⠛⠑");
    assert("⠑⠙⠛⠑"@.len() == 4 && "⠑⠙⠛⠑"@[0] == '⠑' && "⠑⠙⠛⠑"@[1] == '⠙' && "⠑⠙⠛⠑"@[2] == '⠛' && "⠑⠙⠛⠑"@[3] == '⠑');
    reveal_strlit("⠋⠑⠁⠞");
    assert("⠋⠑⠁⠞"@.len() == 4 && "⠋⠑⠁⠞"@[0] == '⠋' && "⠋⠑⠁⠞"@[1] == '⠑' && "⠋⠑⠁⠞"@[2] == '⠁' && "⠋⠑⠁⠞"@[3] == '⠞');
    reveal_strlit("⠃⠥⠛");
    assert("⠃⠥⠛"@.len() == 3 && "⠃⠥⠛"@[0] == '⠃' && "⠃⠥⠛"@[1] == '⠥' && "⠃⠥⠛"@[2] == '⠛');
    reveal_strlit("⠑⠝⠓");
    assert("⠑⠝⠓"@.len() == 3 && "⠑⠝⠓"@[0] == '⠑' && "⠑⠝⠓"@[1] == '⠝' && "⠑⠝⠓"@[2] == '⠓');
}

/// Decoding the code of any token gives that token back.
pub proof fn lemma_token_round_trip(t: SemanticToken)
    ensures
        token_of_code(token_code(t)) == Some(t),
{
    reveal_strlit("⠋⠊⠭");
    assert("⠋⠊⠭"@.len() == 3 && "⠋⠊⠭"@[0] == '⠋' && "⠋⠊⠭"@[1] == '⠊' && "⠋⠊⠭"@[2] == '⠭');
    reveal_strlit("⠁⠙⠙");
    assert("⠁⠙⠙"@.len() == 3 && "⠁⠙⠙"@[0] == '⠁' && "⠁⠙⠙"@[1] == '⠙' && "⠁⠙⠙"@[2] == '⠙');
    reveal_strlit("⠗⠑⠍");
    assert("⠗⠑⠍"@.len() == 3 && "⠗⠑⠍"@[0] == '⠗' && "⠗⠑⠍"@[1] == '⠑' && "⠗⠑⠍"@[2] == '⠍');
    reveal_strlit("⠥⠏⠙");
    assert("⠥⠏⠙"@.len() == 3 && "⠥⠏⠙"@[0] == '⠥' && "⠥⠏⠙"@[1] == '⠏' && "⠥⠏⠙"@[2] == '⠙');
    reveal_strlit("⠗⠑⠋");
    assert("⠗⠑⠋"@.len() == 3 && "⠗⠑⠋"@[0] == '⠗' && "⠗⠑⠋"@[1] == '⠑' && "⠗⠑⠋"@[2] == '⠋');
    reveal_strlit("⠁⠥⠞⠓");
    assert("⠁⠥⠞⠓"@.len() == 4 && "⠁⠥⠞⠓"@[0] == '⠁' && "⠁⠥⠞⠓"@[1] == '⠥' && "⠁⠥⠞⠓"@[2] == '⠞' && "⠁⠥⠞⠓"@[3] == '⠓');
    reveal_strlit("⠎⠑⠉");
    assert("⠎⠑⠉"@.len() == 3 && "⠎⠑⠉"@[0] == '⠎' && "⠎⠑⠉"@[1] == '⠑' && "⠎⠑⠉"@[2] == '⠉');
    reveal_strlit("⠏⠑⠗⠋");
    assert("⠏⠑⠗⠋"@.len() == 4 && "⠏⠑⠗⠋"@[0] == '⠏' && "⠏⠑⠗⠋"@[1] == '⠑' && "⠏⠑⠗⠋"@[2] == '⠗' && "⠏⠑⠗⠋"@[3] == '⠋');
    reveal_strlit("⠞⠑⠎⠞");
    assert("⠞⠑⠎⠞"@.len() == 4 && "⠞⠑⠎⠞"@[0] == '⠞' && "⠞⠑⠎⠞"@[1] == '⠑' && "⠞⠑⠎⠞"@[2] == '⠎' && "⠞⠑⠎⠞"@[3] == '⠞');
    reveal_strlit("⠙⠕⠉");
    assert("⠙⠕⠉"@.len() == 3 && "⠙⠕⠉"@[0] == '⠙' && "⠙⠕⠉"@[1] == '⠕' && "⠙⠕⠉"@[2] == '⠉');
    reveal_strlit("⠑⠙⠛⠑");
    assert("⠑⠙⠛⠑"@.len() == 4 && "⠑⠙⠛⠑"@[0] == '⠑' && "⠑⠙⠛⠑"@[1] == '⠙' && "⠑⠙⠛⠑"@[2] == '⠛' && "⠑⠙⠛⠑"@[3] == '⠑');
    reveal_strlit("⠋⠑⠁⠞");
    assert("⠋⠑⠁⠞"@.len() == 4 && "⠋⠑⠁⠞"@[0] == '⠋' && "⠋⠑⠁⠞"@[1] == '⠑' && "⠋⠑⠁⠞"@[2] == '⠁' && "⠋⠑⠁⠞"@[3] == '⠞');
    reveal_strlit("⠃⠥⠛");
    assert("⠃⠥⠛"@.len() == 3 && "⠃⠥⠛"@[0] == '⠃' && "⠃⠥⠛"@[1] == '⠥' && "⠃⠥⠛"@[2] == '⠛');
    reveal_strlit("⠑⠝⠓");
    assert("⠑⠝⠓"@.len() == 3 && "⠑⠝⠓"@[0] == '⠑' && "⠑⠝⠓"@[1] == '⠝' && "⠑⠝⠓"@[2] == '⠓');
}

pub open spec fn english_words() -> Seq<(Seq<char>, Seq<char>)> {
    seq![
        ("Fix"@, "fix"@),
        ("Add"@, "add"@),
        ("Remove"@, "remove"@),
        ("Update"@, "update"@),
        ("Refactor"@, "refactor"@),
        ("Authentication"@, "authentication"@),
        ("Security"@, "security"@),
        ("Performance"@, "performance"@),
        ("Testing"@, "testing"@),
        ("Documentation"@, "documentation"@),
        ("EdgeCase"@, "edge case"@),
        ("Feature"@, "feature"@),
        ("Bug"@, "bug"@),
        ("Enhancement"@, "enhancement"@),
    ]
}

pub open spec fn spanish_words() -> Seq<(Seq<char>, Seq<char>)> {
    seq![
        ("Fix"@, "corregir"@),
        ("Add"@, "añadir"@),
        ("Remove"@, "eliminar"@),
        ("Update"@, "actualizar"@),
        ("Refactor"@, "refactorizar"@),
        ("Authentication"@, "autenticación"@),
        ("Security"@, "seguridad"@),
        ("Performance"@, "rendimiento"@),
        ("Testing"@, "pruebas"@),
        ("Documentation"@, "documentación"@),
        ("EdgeCase"@, "caso límite"@),
        ("Feature"@, "característica"@),
        ("Bug"@, "error"@),
        ("Enhancement"@, "mejora"@),
    ]
}

pub open spec fn chinese_words() -> Seq<(Seq<char>, Seq<char>)> {
    seq![
        ("Fix"@, "修复"@),
        ("Add"@, "添加"@),
        ("Remove"@, "删除"@),
        ("Update"@, "更新"@),
        ("Refactor"@, "重构"@),
        ("Authentication"@, "身份验证"@),
        ("Security"@, "安全"@),
        ("Performance"@, "性能"@),
        ("Testing"@, "测试"@),
        ("Documentation"@, "文档"@),
        ("EdgeCase"@, "边缘情况"@),
        ("Feature"@, "功能"@),
        ("Bug"@, "错误"@),
        ("Enhancement"@, "增强"@),
    ]
}

/// Token codes joined by `.`.
pub open spec fn join_codes(ts: Seq<SemanticToken>) -> Seq<char>
    decreases ts.len(),
{
    if ts.len() == 0 {
        Seq::empty()
    } else if ts.len() == 1 {
        token_code(ts[0])
    } else {
        join_codes(ts.drop_last()) + "."@ + token_code(ts.last())
    }
}

/// The canonical string of a token sequence, with the topology symbol after a
/// final `.` when there is one.
pub open spec fn canonical(ts: Seq<SemanticToken>, fitness: Option<FitnessTopology>) -> Seq<char> {
    match fitness {
        Some(t) => join_codes(ts) + seq!['.', t.symbol()],
        None => join_codes(ts),
    }
}

/// Segments seen so far and the one being read, as `str::split('.')` cuts.
pub open spec fn split_state(s: Seq<char>) -> (Seq<Seq<char>>, Seq<char>)
    decreases s.len(),
{
    if s.len() == 0 {
        (Seq::empty(), Seq::empty())
    } else {
        let (done, cur) = split_state(s.drop_last());
        if s.last() == '.' {
            (done.push(cur), Seq::empty())
        } else {
            (done, cur.push(s.last()))
        }
    }
}

/// The `.`-separated segments of `s`; there is always at least one.
pub open spec fn segments(s: Seq<char>) -> Seq<Seq<char>> {
    split_state(s).0.push(split_state(s).1)
}

/// Reads one segment: a token code adds its token; otherwise a one-character
/// segment sets the topology to what it decodes to; anything else is skipped.
pub open spec fn read_segment(
    acc: (Seq<SemanticToken>, Option<FitnessTopology>),
    seg: Seq<char>,
) -> (Seq<SemanticToken>, Option<FitnessTopology>) {
    match token_of_code(seg) {
        Some(t) => (acc.0.push(t), acc.1),
        None => if seg.len() == 1 {
            (acc.0, decode_symbol(seg[0]))
        } else {
            acc
        },
    }
}

pub open spec fn read_segments(parts: Seq<Seq<char>>) -> (Seq<SemanticToken>, Option<FitnessTopology>)
    decreases parts.len(),
{
    if parts.len() == 0 {
        (Seq::empty(), None)
    } else {
        read_segment(read_segments(parts.drop_last()), parts.last())
    }
}

/// What a canonical string decodes to: its tokens in order and its topology.
pub open spec fn decode_canonical(s: Seq<char>) -> (Seq<SemanticToken>, Option<FitnessTopology>) {
    read_segments(segments(s))
}

/// Relies on `chrono::Utc::now` and `DateTime::to_rfc3339`: the current time
/// as an RFC 3339 string, which always holds at least the date.
#[verifier::external_body]
fn utc_now_rfc3339() -> (r: String)
    ensures
        r@.len() > 0,
{
    chrono::Utc::now().to_rfc3339()
}

/// A decision in compressed form: tokens, their canonical string, an optional
/// topology, and who made it when.
#[derive(Debug, Clone)]
pub struct SCLCommit {
    pub tokens: Vec<SemanticToken>,
    pub braille: String,
    pub fitness: Option<FitnessTopology>,
    pub timestamp: String,
    pub author: String,
}

impl SCLCommit {
    /// A commit of `tokens` without topology, stamped with the current time.
    pub fn new(tokens: Vec<SemanticToken>, author: String) -> (r: Self)
        ensures
            r.tokens@ == tokens@,
            r.braille@ == canonical(tokens@, None),
            r.fitness is None,
            r.author == author,
            r.timestamp@.len() > 0,
    {
        Self::with_fitness(tokens, author, None)
    }

    /// A commit of `tokens` with an optional topology, stamped with the
    /// current time.
    pub fn with_fitness(
        tokens: Vec<SemanticToken>,
        author: String,
        fitness: Option<FitnessTopology>,
    ) -> (r: Self)
        requires
            fitness matches Some(t) ==> t.wf(),
        ensures
            r.tokens@ == tokens@,
            r.braille@ == canonical(tokens@, fitness),
            r.fitness == fitness,
            r.author == author,
            r.timestamp@.len() > 0,
    {
        let timestamp = utc_now_rfc3339();
        Self::with_fitness_at(tokens, author, fitness, timestamp)
    }

    /// A commit of `tokens` with an optional topology and the given timestamp.
    pub fn with_fitness_at(
        tokens: Vec<SemanticToken>,
        author: String,
        fitness: Option<FitnessTopology>,
        timestamp: String,
    ) -> (r: Self)
        requires
            fitness matches Some(t) ==> t.wf(),
        ensures
            r.tokens@ == tokens@,
            r.braille@ == canonical(tokens@, fitness),
            r.fitness == fitness,
            r.author == author,
            r.timestamp == timestamp,
    {
        let mut braille = String::new();
        let mut i: usize = 0;
        while i < tokens.len()
            invariant
                i <= tokens@.len(),
                braille@ == join_codes(tokens@.take(i as int)),
            decreases tokens@.len() - i,
        {
            let code = tokens[i].to_braille();
            if i > 0 {
                braille.append(".");
            }
            braille.append(code.0.as_str());
            proof {
                let t = tokens@.take(i + 1);
                assert(t.drop_last() =~= tokens@.take(i as int));
                assert(braille@ =~= join_codes(t));
            }
            i += 1;
        }
        assert(tokens@.take(tokens@.len() as int) =~= tokens@);
        if let Some(f) = fitness {
            braille.append(".");
            let mut tail = String::new();
            let c = f.to_braille();
            tail.push(c);
            braille.append(tail.as_str());
            proof {
                reveal_strlit(".");
                assert(tail@ =~= seq![c]);
            }
            assert(braille@ =~= canonical(tokens@, fitness));
        }
        SCLCommit { tokens, braille, fitness, timestamp, author }
    }

    /// Decodes a canonical string, stamped with the current time; `None` when
    /// no segment is a token code.
    pub fn from_braille(braille: &str, author: String) -> (r: Option<Self>)
        ensures
            r is None <==> decode_canonical(braille@).0.len() == 0,
            r matches Some(c) ==> c.tokens@ == decode_canonical(braille@).0 && c.fitness
                == decode_canonical(braille@).1 && c.braille@ == braille@ && c.author == author
                && c.timestamp@.len() > 0,
    {
        let timestamp = utc_now_rfc3339();
        Self::from_braille_at(braille, author, timestamp)
    }

    /// Decodes a canonical string with the given timestamp; `None` when no
    /// segment is a token code.
    pub fn from_braille_at(braille: &str, author: String, timestamp: String) -> (r: Option<Self>)
        ensures
            r is None <==> decode_canonical(braille@).0.len() == 0,
            r matches Some(c) ==> c.tokens@ == decode_canonical(braille@).0 && c.fitness
                == decode_canonical(braille@).1 && c.braille@ == braille@ && c.author == author
                && c.timestamp == timestamp,
    {
        let s = chars_of(braille);
        let mut tokens: Vec<SemanticToken> = Vec::new();
        let mut fitness: Option<FitnessTopology> = None;
        let mut cur: Vec<char> = Vec::new();
        let mut i: usize = 0;
        while i < s.len()
            invariant
                s@ == braille@,
                i <= s@.len(),
                (tokens@, fitness) == read_segments(split_state(s@.take(i as int)).0),
                cur@ == split_state(s@.take(i as int)).1,
            decreases s@.len() - i,
        {
            proof {
                assert(s@.take(i + 1).drop_last() =~= s@.take(i as int));
            }
            if s[i] == '.' {
                read_one(cur.as_slice(), &mut tokens, &mut fitness);
                proof {
                    let d = split_state(s@.take(i as int)).0;
                    assert(d.push(cur@).drop_last() =~= d);
                }
                cur = Vec::new();
            } else {
                cur.push(s[i]);
            }
            i += 1;
        }
        read_one(cur.as_slice(), &mut tokens, &mut fitness);
        proof {
            assert(s@.take(s@.len() as int) =~= s@);
            let d = split_state(s@).0;
            assert(d.push(cur@).drop_last() =~= d);
        }
        if tokens.len() == 0 {
            return None;
        }
        Some(SCLCommit { tokens, braille: String::from_str(braille), fitness, timestamp, author })
    }
}

/// Reads one segment into the tokens and topology decoded so far.
fn read_one(seg: &[char], tokens: &mut Vec<SemanticToken>, fitness: &mut Option<FitnessTopology>)
    ensures
        (final(tokens)@, *final(fitness)) == read_segment((old(tokens)@, *old(fitness)), seg@),
{
    match SemanticToken::from_code_chars(seg) {
        Some(t) => tokens.push(t),
        None => {
            if seg.len() == 1 {
                *fitness = FitnessTopology::from_braille(seg[0]);
            }
        },
    }
}

/// Locales a decision can be rendered in.
#[derive(Debug, Clone, Copy, PartialEq, Eq, Hash, Structural)]
pub enum Language {
    English,
    Spanish,
    Chinese,
    Japanese,
    French,
    German,
    Dutch,
}

/// A dictionary: symbolic token names paired with words.
pub type Words = Seq<(Seq<char>, Seq<char>)>;

pub open spec fn words_view(v: Vec<(String, String)>) -> Words {
    v@.map_values(|p: (String, String)| (p.0@, p.1@))
}

/// The first dictionary configured for `lang`.
pub open spec fn dictionary_for(ds: Seq<(Language, Words)>, lang: Language) -> Option<Words>
    decreases ds.len(),
{
    if ds.len() == 0 {
        None
    } else if ds[0].0 == lang {
        Some(ds[0].1)
    } else {
        dictionary_for(ds.drop_first(), lang)
    }
}

/// The first word that a dictionary gives for `key`.
pub open spec fn word_in(d: Words, key: Seq<char>) -> Option<Seq<char>>
    decreases d.len(),
{
    if d.len() == 0 {
        None
    } else if d[0].0 == key {
        Some(d[0].1)
    } else {
        word_in(d.drop_first(), key)
    }
}

/// The word for `key` in `lang`, or `key` itself when the locale has no
/// dictionary or its dictionary has no entry.
pub open spec fn word_for(ds: Seq<(Language, Words)>, lang: Language, key: Seq<char>) -> Seq<char> {
    match dictionary_for(ds, lang) {
        Some(d) => match word_in(d, key) {
            Some(w) => w,
            None => key,
        },
        None => key,
    }
}

/// Words joined by single spaces.
pub open spec fn join_spaced(ws: Seq<Seq<char>>) -> Seq<char>
    decreases ws.len(),
{
    if ws.len() == 0 {
        Seq::empty()
    } else if ws.len() == 1 {
        ws[0]
    } else {
        join_spaced(ws.drop_last()) + " "@ + ws.last()
    }
}

/// The first word, a colon, then the other words joined by spaces.
pub open spec fn compose(ws: Seq<Seq<char>>) -> Seq<char> {
    if ws.len() >= 2 {
        ws[0] + ": "@ + join_spaced(ws.drop_first())
    } else {
        join_spaced(ws)
    }
}

/// The dictionaries a new renderer holds.
pub open spec fn default_dictionaries() -> Seq<(Language, Words)> {
    seq![
        (Language::English, english_words()),
        (Language::Spanish, spanish_words()),
        (Language::Chinese, chinese_words()),
    ]
}

/// Renders token sequences in natural language through per-locale
/// dictionaries.
pub struct LanguageRenderer {
    templates: Vec<(Language, Vec<(String, String)>)>,
}

impl View for LanguageRenderer {
    type V = Seq<(Language, Words)>;

    closed spec fn view(&self) -> Seq<(Language, Words)> {
        self.templates@.map_values(|e: (Language, Vec<(String, String)>)| (e.0, words_view(e.1)))
    }
}

fn entry(key: &str, word: &str) -> (r: (String, String))
    ensures
        r.0@ == key@,
        r.1@ == word@,
{
    (String::from_str(key), String::from_str(word))
}

fn english_dictionary() -> (r: Vec<(String, String)>)
    ensures
        words_view(r) == english_words(),
{
    let mut d: Vec<(String, String)> = Vec::new();
    d.push(entry("Fix", "fix"));
    d.push(entry("Add", "add"));
    d.push(entry("Remove", "remove"));
    d.push(entry("Update", "update"));
    d.push(entry("Refactor", "refactor"));
    d.push(entry("Authentication", "authentication"));
    d.push(entry("Security", "security"));
    d.push(entry("Performance", "performance"));
    d.push(entry("Testing", "testing"));
    d.push(entry("Documentation", "documentation"));
    d.push(entry("EdgeCase", "edge case"));
    d.push(entry("Feature", "feature"));
    d.push(entry("Bug", "bug"));
    d.push(entry("Enhancement", "enhancement"));
    assert(words_view(d) =~= english_words());
    d
}

fn spanish_dictionary() -> (r: Vec<(String, String)>)
    ensures
        words_view(r) == spanish_words(),
{
    let mut d: Vec<(String, String)> = Vec::new();
    d.push(entry("Fix", "corregir"));
    d.push(entry("Add", "añadir"));
    d.push(entry("Remove", "eliminar"));
    d.push(entry("Update", "actualizar"));
    d.push(entry("Refactor", "refactorizar"));
    d.push(entry("Authentication", "autenticación"));
    d.push(entry("Security", "seguridad"));
    d.push(entry("Performance", "rendimiento"));
    d.push(entry("Testing", "pruebas"));
    d.push(entry("Documentation", "documentación"));
    d.push(entry("EdgeCase", "caso límite"));
    d.push(entry("Feature", "característica"));
    d.push(entry("Bug", "error"));
    d.push(entry("Enhancement", "mejora"));
    assert(words_view(d) =~= spanish_words());
    d
}

fn chinese_dictionary() -> (r: Vec<(String, String)>)
    ensures
        words_view(r) == chinese_words(),
{
    let mut d: Vec<(String, String)> = Vec::new();
    d.push(entry("Fix", "修复"));
    d.push(entry("Add", "添加"));
    d.push(entry("Remove", "删除"));
    d.push(entry("Update", "更新"));
    d.push(entry("Refactor", "重构"));
    d.push(entry("Authentication", "身份验证"));
    d.push(entry("Security", "安全"));
    d.push(entry("Performance", "性能"));
    d.push(entry("Testing", "测试"));
    d.push(entry("Documentation", "文档"));
    d.push(entry("EdgeCase", "边缘情况"));
    d.push(entry("Feature", "功能"));
    d.push(entry("Bug", "错误"));
    d.push(entry("Enhancement", "增强"));
    assert(words_view(d) =~= chinese_words());
    d
}

impl LanguageRenderer {
    /// A renderer with English, Spanish and Chinese dictionaries.
    pub fn new() -> (r: Self)
        ensures
            r@ == default_dictionaries(),
    {
        let mut templates: Vec<(Language, Vec<(String, String)>)> = Vec::new();
        templates.push((Language::English, english_dictionary()));
        templates.push((Language::Spanish, spanish_dictionary()));
        templates.push((Language::Chinese, chinese_dictionary()));
        let r = LanguageRenderer { templates };
        assert(r@ =~= default_dictionaries());
        r
    }

    /// The word for `key` in `lang`, falling back to `key`.
    pub fn word(&self, lang: Language, key: &str) -> (r: String)
        ensures
            r@ == word_for(self@, lang, key@),
    {
        let ds = &self.templates;
        let key_chars = chars_of(key);
        let mut i: usize = 0;
        proof {
            assert(self@.skip(0) =~= self@);
        }
        while i < ds.len()
            invariant
                i <= ds@.len(),
                self@.len() == ds@.len(),
                key_chars@ == key@,
                forall|k: int| 0 <= k < ds@.len() ==> #[trigger] self@[k] == (ds@[k].0, words_view(ds@[k].1)),
                dictionary_for(self@, lang) == dictionary_for(self@.skip(i as int), lang),
            decreases ds@.len() - i,
        {
            proof {
                assert(self@.skip(i as int).drop_first() =~= self@.skip(i + 1));
                assert(self@.skip(i as int)[0] == self@[i as int]);
            }
            if ds[i].0 == lang {
                let d = &ds[i].1;
                let ghost wv = words_view(*d);
                let mut j: usize = 0;
                proof {
                    assert(wv.skip(0) =~= wv);
                }
                while j < d.len()
                    invariant
                        j <= d@.len(),
                        wv == words_view(*d),
                        key_chars@ == key@,
                        dictionary_for(self@, lang) == Some(wv),
                        word_in(wv, key@) == word_in(wv.skip(j as int), key@),
                    decreases d@.len() - j,
                {
                    proof {
                        assert(wv.skip(j as int).drop_first() =~= wv.skip(j + 1));
                        assert(wv.skip(j as int)[0] == wv[j as int]);
                    }
                    let k = chars_of(d[j].0.as_str());
                    if same(k.as_slice(), key) {
                        return d[j].1.clone();
                    }
                    j += 1;
                }
                return String::from_str(key);
            }
            i += 1;
        }
        String::from_str(key)
    }

    /// Renders the commit's tokens in `lang`: the first token's word, a
    /// colon, then the other words separated by spaces. Tokens without a word
    /// in the locale, and locales without a dictionary, use the symbolic name.
    pub fn render(&self, commit: &SCLCommit, lang: Language) -> (r: String)
        ensures
            r@ == compose(commit.tokens@.map_values(|t: SemanticToken| word_for(self@, lang, token_name(t)))),
    {
        let ghost ws = commit.tokens@.map_values(|t: SemanticToken| word_for(self@, lang, token_name(t)));
        let n = commit.tokens.len();
        if n == 0 {
            return String::new();
        }
        let mut r = self.word(lang, commit.tokens[0].name());
        if n >= 2 {
            r.append(": ");
            let mut i: usize = 1;
            while i < n
                invariant
                    n == commit.tokens@.len(),
                    ws == commit.tokens@.map_values(|t: SemanticToken| word_for(self@, lang, token_name(t))),
                    1 <= i <= n,
                    r@ == ws[0] + ": "@ + join_spaced(ws.subrange(1, i as int)),
                decreases n - i,
            {
                let w = self.word(lang, commit.tokens[i].name());
                if i > 1 {
                    r.append(" ");
                }
                r.append(w.as_str());
                proof {
                    let t = ws.subrange(1, i + 1);
                    assert(t.drop_last() =~= ws.subrange(1, i as int));
                    if i == 1 {
                        assert(ws.subrange(1, i as int) =~= Seq::<Seq<char>>::empty());
                    }
                    assert(r@ =~= ws[0] + ": "@ + join_spaced(t));
                }
                i += 1;
            }
            assert(ws.subrange(1, n as int) =~= ws.drop_first());
        }
        r
    }
}

impl Default for LanguageRenderer {
    fn default() -> (r: Self)
        ensures
            r@ == default_dictionaries(),
    {
        Self::new()
    }
}

/// Rendering never fails: a key the locale's dictionary lacks, and every key
/// of a locale without a dictionary, is rendered as itself.
pub proof fn lemma_render_falls_back(ds: Seq<(Language, Words)>, lang: Language, key: Seq<char>)
    ensures
        dictionary_for(ds, lang) is None ==> word_for(ds, lang, key) == key,
        (dictionary_for(ds, lang) matches Some(d) && word_in(d, key) is None) ==> word_for(ds, lang, key) == key,
{
}

/// A new renderer has no dictionary for Japanese, French, German or Dutch.
pub proof fn lemma_default_locales(lang: Language)
    requires
        lang != Language::English,
        lang != Language::Spanish,
        lang != Language::Chinese,
    ensures
        dictionary_for(default_dictionaries(), lang) is None,
{
    reveal_with_fuel(dictionary_for, 4);
}

/// Characters without a `.` extend the segment being read.
proof fn lemma_split_no_dot(a: Seq<char>, b: Seq<char>)
    requires
        forall|i: int| 0 <= i < b.len() ==> #[trigger] b[i] != '.',
    ensures
        split_state(a + b) == (split_state(a).0, split_state(a).1 + b),
    decreases b.len(),
{
    if b.len() == 0 {
        assert(a + b =~= a);
        assert(split_state(a).1 + b =~= split_state(a).1);
    } else {
        let b1 = b.drop_last();
        lemma_split_no_dot(a, b1);
        assert((a + b).drop_last() =~= a + b1);
        assert((a + b).last() == b.last());
        assert(split_state(a).1 + b =~= (split_state(a).1 + b1).push(b.last()));
    }
}

/// A `.` followed by characters without one starts a new last segment.
proof fn lemma_segments_append(a: Seq<char>, b: Seq<char>)
    requires
        forall|i: int| 0 <= i < b.len() ==> #[trigger] b[i] != '.',
    ensures
        segments(a + seq!['.'] + b) == segments(a).push(b),
{
    let a1 = a + seq!['.'];
    assert(a1.drop_last() =~= a);
    lemma_split_no_dot(a1, b);
    assert(Seq::<char>::empty() + b =~= b);
}

proof fn lemma_segments_of_codes(ts: Seq<SemanticToken>)
    requires
        ts.len() >= 1,
    ensures
        segments(join_codes(ts)) == ts.map_values(|t: SemanticToken| token_code(t)),
    decreases ts.len(),
{
    lemma_code_shape(ts.last());
    if ts.len() == 1 {
        lemma_split_no_dot(Seq::empty(), token_code(ts[0]));
        assert(Seq::<char>::empty() + token_code(ts[0]) =~= token_code(ts[0]));
        assert(segments(join_codes(ts)) =~= ts.map_values(|t: SemanticToken| token_code(t)));
    } else {
        let ts1 = ts.drop_last();
        lemma_segments_of_codes(ts1);
        reveal_strlit(".");
        assert(join_codes(ts) == join_codes(ts1) + seq!['.'] + token_code(ts.last()));
        lemma_segments_append(join_codes(ts1), token_code(ts.last()));
        assert(ts.map_values(|t: SemanticToken| token_code(t)) =~= ts1.map_values(|t: SemanticToken| token_code(t)).push(token_code(ts.last())));
    }
}

proof fn lemma_read_codes(ts: Seq<SemanticToken>)
    ensures
        read_segments(ts.map_values(|t: SemanticToken| token_code(t))) == (ts, None::<FitnessTopology>),
    decreases ts.len(),
{
    let cs = ts.map_values(|t: SemanticToken| token_code(t));
    if ts.len() > 0 {
        let ts1 = ts.drop_last();
        lemma_read_codes(ts1);
        assert(cs.drop_last() =~= ts1.map_values(|t: SemanticToken| token_code(t)));
        lemma_token_round_trip(ts.last());
        assert(ts1.push(ts.last()) =~= ts);
    } else {
        assert(cs.len() == 0);
    }
}

/// A canonical string decodes to the tokens and topology it was built from,
/// whenever it holds at least one token.
pub proof fn lemma_canonical_round_trip(ts: Seq<SemanticToken>, fitness: Option<FitnessTopology>)
    requires
        ts.len() >= 1,
        fitness matches Some(t) ==> t.wf(),
    ensures
        decode_canonical(canonical(ts, fitness)) == (ts, fitness),
{
    lemma_segments_of_codes(ts);
    lemma_read_codes(ts);
    let cs = ts.map_values(|t: SemanticToken| token_code(t));
    match fitness {
        None => {},
        Some(t) => {
            let sym = seq![t.symbol()];
            assert(t.symbol() != '.');
            assert(canonical(ts, fitness) =~= join_codes(ts) + seq!['.'] + sym);
            lemma_segments_append(join_codes(ts), sym);
            assert(segments(canonical(ts, fitness)).drop_last() =~= cs);
            assert(token_of_code(sym) is None) by {
                assert forall|u: SemanticToken| token_code(u) != sym by {
                    lemma_code_shape(u);
                }
                if token_of_code(sym) is Some {
                    let u = token_of_code(sym)->0;
                    lemma_token_round_trip(u);
                }
            }
            crate::bifm::lemma_symbol_round_trip(t);
            assert(decode_symbol(t.symbol()) == Some(t));
        },
    }
}

} // verus!
