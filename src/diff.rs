//! Parsing of change text into per-file records.
use vstd::prelude::*;
use crate::text::{begins, chars_of, starts_with, string_from, string_of};

verus! {

/// What a file record holds, as sequences of characters.
pub struct ChangeView {
    pub path: Seq<char>,
    pub added: Seq<Seq<char>>,
    pub removed: Seq<Seq<char>>,
}

/// One changed file: its path and the content lines added and removed.
#[derive(Debug, Clone)]
pub struct FileChange {
    pub path: String,
    pub added: Vec<String>,
    pub removed: Vec<String>,
}

pub open spec fn lines_view(v: Vec<String>) -> Seq<Seq<char>> {
    v@.map_values(|s: String| s@)
}

impl View for FileChange {
    type V = ChangeView;

    open spec fn view(&self) -> ChangeView {
        ChangeView { path: self.path@, added: lines_view(self.added), removed: lines_view(self.removed) }
    }
}

pub open spec fn changes_view(v: Seq<FileChange>) -> Seq<ChangeView> {
    v.map_values(|c: FileChange| c@)
}

/// A line without the carriage return that ends it, if one does.
pub open spec fn strip_cr(l: Seq<char>) -> Seq<char> {
    if l.len() > 0 && l.last() == '\r' {
        l.drop_last()
    } else {
        l
    }
}

/// Finished lines and the line being read, as `str::lines` cuts.
pub open spec fn line_state(s: Seq<char>) -> (Seq<Seq<char>>, Seq<char>)
    decreases s.len(),
{
    if s.len() == 0 {
        (Seq::empty(), Seq::empty())
    } else {
        let (done, cur) = line_state(s.drop_last());
        if s.last() == '\n' {
            (done.push(strip_cr(cur)), Seq::empty())
        } else {
            (done, cur.push(s.last()))
        }
    }
}

/// The lines of a text: cut at each `\n`, a `\r` before it dropped, and no
/// empty line after a final `\n`.
pub open spec fn lines_of(s: Seq<char>) -> Seq<Seq<char>> {
    let (done, cur) = line_state(s);
    if cur.len() > 0 {
        done.push(cur)
    } else {
        done
    }
}

/// Unicode white space, as `char::is_whitespace` classifies it.
pub open spec fn is_space(c: char) -> bool {
    c == ' ' || ('\t' <= c && c <= '\r') || c == '\u{85}' || c == '\u{a0}' || c == '\u{1680}' || (
    '\u{2000}' <= c && c <= '\u{200a}') || c == '\u{2028}' || c == '\u{2029}' || c == '\u{202f}'
        || c == '\u{205f}' || c == '\u{3000}'
}

pub fn is_space_exec(c: char) -> (r: bool)
    ensures
        r == is_space(c),
{
    c == ' ' || ('\t' <= c && c <= '\r') || c == '\u{85}' || c == '\u{a0}' || c == '\u{1680}' || (
    '\u{2000}' <= c && c <= '\u{200a}') || c == '\u{2028}' || c == '\u{2029}' || c == '\u{202f}'
        || c == '\u{205f}' || c == '\u{3000}'
}

/// Finished words and the word being read, cutting at runs of white space.
pub open spec fn word_state(s: Seq<char>) -> (Seq<Seq<char>>, Seq<char>)
    decreases s.len(),
{
    if s.len() == 0 {
        (Seq::empty(), Seq::empty())
    } else {
        let (done, cur) = word_state(s.drop_last());
        if is_space(s.last()) {
            if cur.len() > 0 {
                (done.push(cur), Seq::empty())
            } else {
                (done, cur)
            }
        } else {
            (done, cur.push(s.last()))
        }
    }
}

/// The words of a line, as `str::split_whitespace` gives them.
pub open spec fn words_of(s: Seq<char>) -> Seq<Seq<char>> {
    let (done, cur) = word_state(s);
    if cur.len() > 0 {
        done.push(cur)
    } else {
        done
    }
}

/// The second word of a line, or nothing when it has fewer.
pub open spec fn second_word(s: Seq<char>) -> Seq<char> {
    if words_of(s).len() > 1 {
        words_of(s)[1]
    } else {
        Seq::empty()
    }
}

/// Splits characters into lines.
pub fn split_lines(s: &[char]) -> (r: Vec<Vec<char>>)
    ensures
        r@.map_values(|l: Vec<char>| l@) == lines_of(s@),
        r@.len() <= s@.len(),
{
    let mut done: Vec<Vec<char>> = Vec::new();
    let mut cur: Vec<char> = Vec::new();
    let mut i: usize = 0;
    while i < s.len()
        invariant
            i <= s@.len(),
            done@.map_values(|l: Vec<char>| l@) == line_state(s@.take(i as int)).0,
            cur@ == line_state(s@.take(i as int)).1,
            done@.len() + cur@.len() <= i,
        decreases s@.len() - i,
    {
        proof {
            assert(s@.take(i + 1).drop_last() =~= s@.take(i as int));
        }
        if s[i] == '\n' {
            let mut line = cur;
            if line.len() > 0 && line[line.len() - 1] == '\r' {
                line.pop();
            }
            proof {
                let old_cur = line_state(s@.take(i as int)).1;
                assert(line@ =~= strip_cr(old_cur));
            }
            done.push(line);
            cur = Vec::new();
            proof {
                assert(done@.map_values(|l: Vec<char>| l@) =~= line_state(s@.take(i + 1)).0);
            }
        } else {
            cur.push(s[i]);
            proof {
                assert(cur@ =~= line_state(s@.take(i + 1)).1);
            }
        }
        i += 1;
    }
    proof {
        assert(s@.take(s@.len() as int) =~= s@);
    }
    if cur.len() > 0 {
        done.push(cur);
        proof {
            assert(done@.map_values(|l: Vec<char>| l@) =~= lines_of(s@));
        }
    }
    done
}

/// Splits a line into its words.
pub fn split_words(s: &[char]) -> (r: Vec<Vec<char>>)
    ensures
        r@.map_values(|l: Vec<char>| l@) == words_of(s@),
{
    let mut done: Vec<Vec<char>> = Vec::new();
    let mut cur: Vec<char> = Vec::new();
    let mut i: usize = 0;
    while i < s.len()
        invariant
            i <= s@.len(),
            done@.map_values(|l: Vec<char>| l@) == word_state(s@.take(i as int)).0,
            cur@ == word_state(s@.take(i as int)).1,
        decreases s@.len() - i,
    {
        proof {
            assert(s@.take(i + 1).drop_last() =~= s@.take(i as int));
        }
        if is_space_exec(s[i]) {
            if cur.len() > 0 {
                done.push(cur);
                cur = Vec::new();
                proof {
                    assert(done@.map_values(|l: Vec<char>| l@) =~= word_state(s@.take(i + 1)).0);
                }
            }
        } else {
            cur.push(s[i]);
            proof {
                assert(cur@ =~= word_state(s@.take(i + 1)).1);
            }
        }
        i += 1;
    }
    proof {
        assert(s@.take(s@.len() as int) =~= s@);
    }
    if cur.len() > 0 {
        done.push(cur);
        proof {
            assert(done@.map_values(|l: Vec<char>| l@) =~= words_of(s@));
        }
    }
    done
}

pub fn second_word_exec(s: &[char]) -> (r: Vec<char>)
    ensures
        r@ == second_word(s@),
{
    let mut ws = split_words(s);
    if ws.len() > 1 {
        assert(ws@[1]@ == words_of(s@)[1]);
        ws.swap_remove(1)
    } else {
        Vec::new()
    }
}

/// A line that announces a changed file.
pub open spec fn is_announcement(l: Seq<char>) -> bool {
    starts_with(l, "MODIFIED: "@) || starts_with(l, "NEW: "@) || starts_with(l, "DELETED: "@)
}

/// Records finished so far and the record being read.
pub struct ParseState {
    pub done: Seq<ChangeView>,
    pub current: Option<ChangeView>,
}

pub open spec fn flush(st: ParseState) -> Seq<ChangeView> {
    match st.current {
        Some(c) => st.done.push(c),
        None => st.done,
    }
}

/// Reads one line: an announcement starts a new record; a `+` or `-` line
/// (but not `+++` or `---`) adds its content, without the sign, to the record
/// being read; any other line, and content before the first announcement, is
/// skipped.
pub open spec fn parse_step(st: ParseState, l: Seq<char>) -> ParseState {
    if is_announcement(l) {
        ParseState {
            done: flush(st),
            current: Some(ChangeView { path: second_word(l), added: Seq::empty(), removed: Seq::empty() }),
        }
    } else if st.current is Some && starts_with(l, "+"@) && !starts_with(l, "+++"@) {
        let c = st.current->0;
        ParseState { done: st.done, current: Some(ChangeView { added: c.added.push(l.drop_first()), ..c }) }
    } else if st.current is Some && starts_with(l, "-"@) && !starts_with(l, "---"@) {
        let c = st.current->0;
        ParseState { done: st.done, current: Some(ChangeView { removed: c.removed.push(l.drop_first()), ..c }) }
    } else {
        st
    }
}

pub open spec fn parse_lines(ls: Seq<Seq<char>>) -> ParseState
    decreases ls.len(),
{
    if ls.len() == 0 {
        ParseState { done: Seq::empty(), current: None }
    } else {
        parse_step(parse_lines(ls.drop_last()), ls.last())
    }
}

/// The records a change text describes, in order.
pub open spec fn parse_text(s: Seq<char>) -> Seq<ChangeView> {
    flush(parse_lines(lines_of(s)))
}

/// Number of records and content lines together.
pub open spec fn record_size(c: ChangeView) -> int {
    1 + c.added.len() + c.removed.len() as int
}

pub open spec fn total_size(cs: Seq<ChangeView>) -> int
    decreases cs.len(),
{
    if cs.len() == 0 {
        0
    } else {
        total_size(cs.drop_last()) + record_size(cs.last())
    }
}

fn to_record(path: Vec<char>, added: Vec<String>, removed: Vec<String>) -> (r: FileChange)
    ensures
        r@ == (ChangeView { path: path@, added: lines_view(added), removed: lines_view(removed) }),
{
    FileChange { path: string_of(path.as_slice()), added, removed }
}

/// Parses change text into one record per announced file. Never fails:
/// unrecognised lines are skipped.
pub fn parse(text: &str) -> (r: Vec<FileChange>)
    ensures
        changes_view(r@) == parse_text(text@),
        total_size(changes_view(r@)) <= text@.len(),
{
    let chars = chars_of(text);
    let lines = split_lines(chars.as_slice());
    let ghost ls = lines@.map_values(|l: Vec<char>| l@);
    let mut done: Vec<FileChange> = Vec::new();
    let mut has_current = false;
    let mut path: Vec<char> = Vec::new();
    let mut added: Vec<String> = Vec::new();
    let mut removed: Vec<String> = Vec::new();
    let mut k: usize = 0;
    while k < lines.len()
        invariant
            ls == lines@.map_values(|l: Vec<char>| l@),
            ls == lines_of(text@),
            ls.len() <= text@.len(),
            k <= ls.len(),
            changes_view(done@) == parse_lines(ls.take(k as int)).done,
            has_current == parse_lines(ls.take(k as int)).current is Some,
            has_current ==> parse_lines(ls.take(k as int)).current == Some(
                ChangeView { path: path@, added: lines_view(added), removed: lines_view(removed) },
            ),
            !has_current ==> added@.len() == 0 && removed@.len() == 0,
            total_size(changes_view(done@)) + (if has_current { 1 + added@.len() + removed@.len() as int } else { 0int }) <= k,
        decreases ls.len() - k,
    {
        proof {
            assert(ls.take(k + 1).drop_last() =~= ls.take(k as int));
            assert(ls.take(k + 1).last() == ls[k as int]);
            reveal_strlit("+");
            reveal_strlit("-");
        }
        let line = lines[k].as_slice();
        if begins(line, "MODIFIED: ") || begins(line, "NEW: ") || begins(line, "DELETED: ") {
            if has_current {
                let ghost before = done@;
                let rec = to_record(path, added, removed);
                done.push(rec);
                proof {
                    assert(changes_view(done@) =~= changes_view(before).push(rec@));
                    assert(changes_view(done@).drop_last() =~= changes_view(before));
                }
            }
            path = second_word_exec(line);
            added = Vec::new();
            removed = Vec::new();
            has_current = true;
            proof {
                assert(lines_view(added) =~= Seq::<Seq<char>>::empty());
                assert(lines_view(removed) =~= Seq::<Seq<char>>::empty());
            }
        } else if has_current && begins(line, "+") && !begins(line, "+++") {
            let ghost before = lines_view(added);
            let content = string_from(line, 1);
            added.push(content);
            proof {
                assert(lines_view(added) =~= before.push(line@.drop_first()));
            }
        } else if has_current && begins(line, "-") && !begins(line, "---") {
            let ghost before = lines_view(removed);
            let content = string_from(line, 1);
            removed.push(content);
            proof {
                assert(lines_view(removed) =~= before.push(line@.drop_first()));
            }
        }
        k += 1;
    }
    proof {
        assert(ls.take(ls.len() as int) =~= ls);
    }
    if has_current {
        let ghost before = done@;
        let rec = to_record(path, added, removed);
        done.push(rec);
        proof {
            assert(changes_view(done@) =~= changes_view(before).push(rec@));
            assert(changes_view(done@).drop_last() =~= changes_view(before));
        }
    }
    done
}

} // verus!
