//! The running record of a conversation, from which one memory per session
//! is written.

use vstd::prelude::*;
use vstd::string::StringExecFns;
use vstd::utf8::encode_utf8;
use crate::dedup::contains_word;
use crate::ident::{decimal, push_decimal, session_memory_id, session_text, short_hash};
use crate::rank::top;
use crate::sql::{
    run_query, run_statement, statement_1, statement_3, text_param, ParamView, SqlParam, SqlRow,
    Statement,
};
use crate::text::{
    chars_of, join, join_with, lemma_lex_irreflexive, lemma_lex_total, lemma_lex_transitive,
    lex_less, lowercase, prefix, split_whitespace, str_eq, take_chars, text_less, text_of, tokens,
};

verus! {

/// Whether `c` is a letter or a digit, as Unicode classifies it.
pub uninterp spec fn alphanumeric(c: char) -> bool;

/// `char::is_alphanumeric`: the answer is whether the character is a letter
/// or a digit, which depends on the character alone.
pub assume_specification[ char::is_alphanumeric ](c: char) -> (b: bool)
    ensures
        b == alphanumeric(c),
;

/// Most paths that are kept of one text.
pub const MAX_FILES: usize = 20;

/// The characters that a path is made of.
pub open spec fn path_char(c: char) -> bool {
    alphanumeric(c) || c == '/' || c == '.' || c == '_' || c == '-'
}

/// `w` without the characters in front that no path is made of.
pub open spec fn trim_start(w: Seq<char>) -> Seq<char>
    decreases w.len(),
{
    if w.len() == 0 || path_char(w[0]) {
        w
    } else {
        trim_start(w.drop_first())
    }
}

/// `w` without the characters at the end that no path is made of.
pub open spec fn trim_end(w: Seq<char>) -> Seq<char>
    decreases w.len(),
{
    if w.len() == 0 || path_char(w.last()) {
        w
    } else {
        trim_end(w.drop_last())
    }
}

/// A word stripped of what surrounds a path: quotes, brackets, commas.
pub open spec fn trimmed(w: Seq<char>) -> Seq<char> {
    trim_end(trim_start(w))
}

/// Whether a stripped word is taken for the path of a file: it starts with
/// a slash, holds a dot and is longer than three bytes.
pub open spec fn looks_like_file(w: Seq<char>) -> bool {
    w.len() > 0 && w[0] == '/' && w.contains('.') && encode_utf8(w).len() > 3
}

/// Whether one of the first `count` words of `text` names the file `path`.
pub open spec fn mentions_among(text: Seq<char>, count: int, path: Seq<char>) -> bool {
    looks_like_file(path) && exists|i: int|
        0 <= i < count && path == trimmed(#[trigger] tokens(text)[i])
}

/// Whether `text` mentions the file `path`.
pub open spec fn mentions_file(text: Seq<char>, path: Seq<char>) -> bool {
    mentions_among(text, tokens(text).len() as int, path)
}

/// Every text comes before the ones behind it.
pub open spec fn strictly_ascending(s: Seq<Seq<char>>) -> bool {
    forall|i: int, j: int| 0 <= i < j < s.len() ==> lex_less(#[trigger] s[i], #[trigger] s[j])
}

/// Whether `files` are the files that `text` mentions: each once, in
/// ascending order, and only the first `MAX_FILES` of them.
pub open spec fn is_extraction(text: Seq<char>, files: Seq<Seq<char>>) -> bool {
    &&& strictly_ascending(files)
    &&& files.len() <= MAX_FILES
    &&& forall|i: int| 0 <= i < files.len() ==> mentions_file(text, #[trigger] files[i])
    &&& forall|path: Seq<char>|
        mentions_file(text, path) ==> files.contains(path) || (files.len() == MAX_FILES
            && lex_less(files.last(), path))
}

/// Whether a path character is at hand.
fn is_path_char(c: char) -> (b: bool)
    ensures
        b == path_char(c),
{
    c.is_alphanumeric() || c == '/' || c == '.' || c == '_' || c == '-'
}

/// Strips a word of what surrounds a path.
pub fn trim_word(word: &str) -> (stripped: String)
    ensures
        stripped@ == trimmed(word@),
{
    let chars = chars_of(word);
    let mut from: usize = 0;
    assert(chars@.skip(0) =~= chars@);
    while from < chars.len() && !is_path_char(chars[from])
        invariant
            from <= chars.len(),
            trim_start(chars@) == trim_start(chars@.skip(from as int)),
        decreases chars.len() - from,
    {
        assert(chars@.skip(from as int).drop_first() =~= chars@.skip(from + 1));
        from += 1;
    }
    let ghost rest = chars@.skip(from as int);
    assert(trim_start(chars@) == rest);
    let mut to: usize = chars.len();
    proof {
        assert(rest.take(rest.len() as int) =~= rest);
    }
    while to > from && !is_path_char(chars[to - 1])
        invariant
            from <= to <= chars.len(),
            rest == chars@.skip(from as int),
            trim_end(rest) == trim_end(rest.take(to - from)),
        decreases to,
    {
        assert(rest.take(to - from).drop_last() =~= rest.take(to - from - 1));
        to -= 1;
    }
    assert(rest.take(to - from) =~= chars@.subrange(from as int, to as int));
    text_of(&chars, from, to)
}

/// Whether the word is taken for the path of a file.
pub fn is_file_path(word: &str) -> (b: bool)
    ensures
        b == looks_like_file(word@),
{
    let chars = chars_of(word);
    if chars.len() == 0 || chars[0] != '/' || word.as_bytes().len() <= 3 {
        return false;
    }
    let mut i: usize = 0;
    while i < chars.len()
        invariant
            i <= chars.len(),
            chars@ == word@,
            looks_like_file(word@) == word@.contains('.'),
            forall|k: int| 0 <= k < i ==> chars@[k] != '.',
        decreases chars.len() - i,
    {
        if chars[i] == '.' {
            assert(word@[i as int] == '.');
            return true;
        }
        i += 1;
    }
    false
}

/// Puts `word` into the ascending list `sorted`, unless it is there.
pub fn insert_sorted(sorted: &mut Vec<String>, word: String)
    requires
        strictly_ascending(old(sorted).deep_view()),
    ensures
        strictly_ascending(final(sorted).deep_view()),
        forall|x: Seq<char>|
            final(sorted).deep_view().contains(x) <==> old(sorted).deep_view().contains(x) || x
                == word@,
{
    let ghost start = sorted.deep_view();
    let mut p: usize = 0;
    while p < sorted.len() && text_less(sorted[p].as_str(), word.as_str())
        invariant
            p <= sorted.len(),
            sorted.deep_view() == start,
            forall|i: int| 0 <= i < p ==> lex_less(#[trigger] start[i], word@),
        decreases sorted.len() - p,
    {
        assert(start[p as int] == sorted[p as int]@);
        p += 1;
    }
    if p < sorted.len() {
        assert(start[p as int] == sorted[p as int]@);
        if sorted[p] == word {
            assert(start.contains(word@));
            return ;
        }
    }
    proof {
        assert forall|j: int| p <= j < start.len() implies lex_less(word@, #[trigger] start[j]) by {
            lemma_lex_total(start[p as int], word@);
            if j > p {
                lemma_lex_transitive(word@, start[p as int], start[j]);
            }
        }
        assert forall|i: int| 0 <= i < start.len() implies #[trigger] start[i] != word@ by {
            lemma_lex_irreflexive(word@);
        }
    }
    let ghost w = word@;
    sorted.insert(p, word);
    proof {
        let after = sorted.deep_view();
        assert(after =~= start.insert(p as int, w));
        assert forall|i: int, j: int| 0 <= i < j < after.len() implies lex_less(
            #[trigger] after[i],
            #[trigger] after[j],
        ) by {
            let a = if i < p { i } else { i - 1 };
            let b = if j < p { j } else { j - 1 };
            if i != p && j != p {
                assert(after[i] == start[a] && after[j] == start[b]);
            } else if i == p {
                assert(after[j] == start[b]);
            } else {
                assert(after[i] == start[a]);
            }
        }
        assert forall|x: Seq<char>| after.contains(x) <==> start.contains(x) || x == w by {
            if after.contains(x) {
                let k = choose|k: int| 0 <= k < after.len() && after[k] == x;
                if k < p {
                    assert(start[k] == x);
                } else if k > p {
                    assert(start[k - 1] == x);
                }
            }
            if start.contains(x) {
                let k = choose|k: int| 0 <= k < start.len() && start[k] == x;
                if k < p {
                    assert(after[k] == x);
                } else {
                    assert(after[k + 1] == x);
                }
            }
            if x == w {
                assert(after[p as int] == x);
            }
        }
    }
}

/// The files that `text` mentions: each once, in ascending order, and only
/// the first `MAX_FILES` of them. A file is a word that, stripped of the
/// characters around it that no path is made of, starts with a slash,
/// holds a dot and is longer than three bytes.
pub fn extract_files(text: &str) -> (files: Vec<String>)
    ensures
        is_extraction(text@, files.deep_view()),
{
    let words = split_whitespace(text);
    let mut all: Vec<String> = Vec::new();
    let mut i: usize = 0;
    while i < words.len()
        invariant
            i <= words.len(),
            words.deep_view() == tokens(text@),
            strictly_ascending(all.deep_view()),
            forall|x: Seq<char>|
                #[trigger] all.deep_view().contains(x) <==> mentions_among(text@, i as int, x),
        decreases words.len() - i,
    {
        let ghost before = all.deep_view();
        assert(words.deep_view()[i as int] == words[i as int]@);
        let stripped = trim_word(words[i].as_str());
        let ghost stripped_view = stripped@;
        if is_file_path(stripped.as_str()) {
            insert_sorted(&mut all, stripped);
        }
        proof {
            let w = trimmed(tokens(text@)[i as int]);
            let after = all.deep_view();
            assert(stripped_view == w);
            assert forall|x: Seq<char>| #[trigger] after.contains(x) <==> mentions_among(
                text@,
                i + 1,
                x,
            ) by {
                assert(before.contains(x) <==> mentions_among(text@, i as int, x));
                if mentions_among(text@, i as int, x) {
                    let k = choose|k: int|
                        0 <= k < i && x == trimmed(#[trigger] tokens(text@)[k]);
                    assert(0 <= k < i + 1 && x == trimmed(tokens(text@)[k]));
                }
                if x == w && looks_like_file(w) {
                    assert(0 <= i < i + 1 && x == trimmed(tokens(text@)[i as int]));
                }
                if mentions_among(text@, i + 1, x) {
                    let k = choose|k: int|
                        0 <= k < i + 1 && x == trimmed(#[trigger] tokens(text@)[k]);
                    if k < i {
                        assert(mentions_among(text@, i as int, x));
                    } else {
                        assert(x == w);
                    }
                }
            }
        }
        i += 1;
    }
    let ghost full = all.deep_view();
    assert(words.deep_view().len() == words.len());
    if all.len() > MAX_FILES {
        all.truncate(MAX_FILES);
    }
    proof {
        let kept = all.deep_view();
        assert(kept =~= if full.len() > MAX_FILES { full.take(MAX_FILES as int) } else { full });
        assert forall|i: int| 0 <= i < kept.len() implies mentions_file(
            text@,
            #[trigger] kept[i],
        ) by {
            assert(full[i] == kept[i]);
            assert(full.contains(kept[i]));
        }
        assert forall|path: Seq<char>| mentions_file(text@, path) implies kept.contains(path) || (
        kept.len() == MAX_FILES && lex_less(kept.last(), path)) by {
            assert(full.contains(path));
            let k = choose|k: int| 0 <= k < full.len() && full[k] == path;
            if k < kept.len() {
                assert(kept[k] == path);
            } else {
                assert(kept.last() == full[MAX_FILES - 1]);
            }
        }
    }
    all
}

/// Most turns that a session keeps: older ones are dropped.
pub const MAX_TURNS: usize = 20;

/// Most characters that are kept of a prompt.
pub const MAX_PROMPT_CHARS: usize = 500;

/// One turn of a conversation.
pub struct Turn {
    pub role: String,
    pub content: String,
    pub timestamp: String,
}

/// What is known of the running session.
pub struct SessionData {
    pub turns: Vec<Turn>,
    pub session_id: String,
    pub project: String,
    pub tools: Vec<String>,
    pub files: Vec<String>,
}

/// A turn as plain text.
pub struct TurnView {
    pub role: Seq<char>,
    pub content: Seq<char>,
    pub timestamp: Seq<char>,
}

impl View for Turn {
    type V = TurnView;

    open spec fn view(&self) -> TurnView {
        TurnView { role: self.role@, content: self.content@, timestamp: self.timestamp@ }
    }
}

/// Turns as plain text.
pub open spec fn turn_views(turns: Seq<Turn>) -> Seq<TurnView> {
    turns.map_values(|t: Turn| t@)
}

/// Whether a turn can give a topic: a prompt of the user of more than five
/// bytes.
pub open spec fn is_topic(turn: TurnView) -> bool {
    turn.role == "user"@ && encode_utf8(turn.content).len() > 5
}

/// The key by which two prompts count as the same topic: the first fifty
/// characters in lowercase.
pub open spec fn topic_key(content: Seq<char>) -> Seq<char> {
    lowercase(prefix(content, 50))
}

/// The keys of the turns that can give a topic.
pub open spec fn topic_keys(turns: Seq<TurnView>) -> Seq<Seq<char>>
    decreases turns.len(),
{
    if turns.len() == 0 {
        Seq::empty()
    } else if is_topic(turns.last()) {
        topic_keys(turns.drop_last()).push(topic_key(turns.last().content))
    } else {
        topic_keys(turns.drop_last())
    }
}

/// The topics of a session: the first three hundred characters of every
/// prompt whose key no earlier prompt has.
pub open spec fn topics(turns: Seq<TurnView>) -> Seq<Seq<char>>
    decreases turns.len(),
{
    if turns.len() == 0 {
        Seq::empty()
    } else {
        let before = topics(turns.drop_last());
        let turn = turns.last();
        if is_topic(turn) && !topic_keys(turns.drop_last()).contains(topic_key(turn.content)) {
            before.push(prefix(turn.content, 300))
        } else {
            before
        }
    }
}

/// The first line of the content of a session.
pub open spec fn header_line(project: Seq<char>, turns: nat) -> Seq<char> {
    "["@ + project + "] Session ("@ + decimal(turns) + " turns)"@
}

/// The line that lists the first `most` of `items` behind `label`.
pub open spec fn listing_line(label: Seq<char>, items: Seq<Seq<char>>, most: int) -> Seq<char> {
    label + join(top(items, most), ", "@)
}

/// The lines of the content of a session: the header, the tools and the
/// files where there are any, and the topics under a line of their own.
pub open spec fn session_lines(
    project: Seq<char>,
    turns: Seq<TurnView>,
    tools: Seq<Seq<char>>,
    files: Seq<Seq<char>>,
) -> Seq<Seq<char>> {
    seq![header_line(project, turns.len())] + (if tools.len() > 0 {
        seq![listing_line("Tools: "@, tools, 20)]
    } else {
        Seq::empty()
    }) + (if files.len() > 0 {
        seq![listing_line("Files: "@, files, 15)]
    } else {
        Seq::empty()
    }) + (if topics(turns).len() > 0 {
        seq!["Topics:"@] + top(topics(turns), 10).map_values(|t: Seq<char>| "  - "@ + t)
    } else {
        Seq::empty()
    })
}

/// The content of the memory of a session.
pub open spec fn session_content(session: SessionData) -> Seq<char> {
    join(
        session_lines(
            session.project@,
            turn_views(session.turns@),
            session.tools.deep_view(),
            session.files.deep_view(),
        ),
        "\n"@,
    )
}

/// The topics of the turns.
pub fn session_topics(turns: &Vec<Turn>) -> (found: Vec<String>)
    ensures
        found.deep_view() == topics(turn_views(turns@)),
{
    let mut found: Vec<String> = Vec::new();
    let mut seen: Vec<String> = Vec::new();
    let mut i: usize = 0;
    while i < turns.len()
        invariant
            i <= turns.len(),
            found.deep_view() == topics(turn_views(turns@).take(i as int)),
            seen.deep_view() == topic_keys(turn_views(turns@).take(i as int)),
        decreases turns.len() - i,
    {
        let turn = &turns[i];
        let ghost read = turn_views(turns@).take(i as int);
        let ghost known = seen.deep_view();
        let ghost kept = found.deep_view();
        proof {
            assert(turn_views(turns@).take(i + 1).drop_last() =~= read);
            assert(turn_views(turns@).take(i + 1).last() == turn@);
        }
        if str_eq(turn.role.as_str(), "user") && turn.content.as_str().as_bytes().len() > 5 {
            let head = take_chars(turn.content.as_str(), 50);
            let key = head.as_str().to_lowercase();
            if !contains_word(&seen, &key) {
                let topic = take_chars(turn.content.as_str(), 300);
                let ghost t = topic@;
                found.push(topic);
                assert(found.deep_view() =~= kept.push(t));
            }
            let ghost k = key@;
            seen.push(key);
            assert(seen.deep_view() =~= known.push(k));
        }
        i += 1;
    }
    assert(turn_views(turns@).take(turns.len() as int) =~= turn_views(turns@));
    found
}

/// The content of the memory of a session.
pub fn build_session_content(session: &SessionData) -> (content: String)
    ensures
        content@ == session_content(*session),
{
    let mut lines: Vec<String> = Vec::new();
    let mut header = String::new();
    header.append("[");
    header.append(session.project.as_str());
    header.append("] Session (");
    push_decimal(&mut header, session.turns.len());
    header.append(" turns)");
    assert(header@ =~= header_line(session.project@, session.turns.len() as nat));
    lines.push(header);
    assert(lines.deep_view() =~= seq![header_line(session.project@, session.turns.len() as nat)]);
    if session.tools.len() > 0 {
        let most = if session.tools.len() < 20 {
            session.tools.len()
        } else {
            20
        };
        let mut line = String::new();
        line.append("Tools: ");
        line.append(join_with(&session.tools, 0, most, ", ").as_str());
        assert(session.tools.deep_view().subrange(0, most as int) =~= top(
            session.tools.deep_view(),
            20,
        ));
        let ghost before = lines.deep_view();
        let ghost l = line@;
        lines.push(line);
        assert(lines.deep_view() =~= before + seq![l]);
    }
    if session.files.len() > 0 {
        let most = if session.files.len() < 15 {
            session.files.len()
        } else {
            15
        };
        let mut line = String::new();
        line.append("Files: ");
        line.append(join_with(&session.files, 0, most, ", ").as_str());
        assert(session.files.deep_view().subrange(0, most as int) =~= top(
            session.files.deep_view(),
            15,
        ));
        let ghost before = lines.deep_view();
        let ghost l = line@;
        lines.push(line);
        assert(lines.deep_view() =~= before + seq![l]);
    }
    let found = session_topics(&session.turns);
    if found.len() > 0 {
        let ghost start = lines.deep_view();
        lines.push("Topics:".to_owned());
        assert(lines.deep_view() =~= start + seq!["Topics:"@]);
        let most = if found.len() < 10 {
            found.len()
        } else {
            10
        };
        let ghost shown = top(found.deep_view(), 10);
        let mut k: usize = 0;
        while k < most
            invariant
                k <= most <= found.len(),
                most == shown.len(),
                shown == top(found.deep_view(), 10),
                lines.deep_view() == start + seq!["Topics:"@] + shown.take(k as int).map_values(
                    |t: Seq<char>| "  - "@ + t,
                ),
            decreases most - k,
        {
            let mut line = String::new();
            line.append("  - ");
            line.append(found[k].as_str());
            let ghost before = lines.deep_view();
            let ghost l = line@;
            assert(found.deep_view()[k as int] == found[k as int]@);
            assert(l =~= "  - "@ + shown[k as int]);
            lines.push(line);
            assert(lines.deep_view() =~= before.push(l));
            assert(shown.take(k + 1).map_values(|t: Seq<char>| "  - "@ + t) =~= shown.take(
                k as int,
            ).map_values(|t: Seq<char>| "  - "@ + t).push(l));
            k += 1;
        }
        assert(shown.take(most as int) =~= shown);
    }
    assert(lines.deep_view() =~= session_lines(
        session.project@,
        turn_views(session.turns@),
        session.tools.deep_view(),
        session.files.deep_view(),
    ));
    let content = join_with(&lines, 0, lines.len(), "\n");
    assert(lines.deep_view().subrange(0, lines.len() as int) =~= lines.deep_view());
    content
}

/// The last `most` items of `s`, or all of `s` where it has fewer.
pub open spec fn last_items<T>(s: Seq<T>, most: int) -> Seq<T> {
    if s.len() > most {
        s.skip(s.len() - most)
    } else {
        s
    }
}

/// `have` with those of `found` added at the end, in order, that it does
/// not hold yet.
pub open spec fn with_missing(have: Seq<Seq<char>>, found: Seq<Seq<char>>) -> Seq<Seq<char>>
    decreases found.len(),
{
    if found.len() == 0 {
        have
    } else {
        let before = with_missing(have, found.drop_last());
        if before.contains(found.last()) {
            before
        } else {
            before.push(found.last())
        }
    }
}

/// Adds a turn at the end and drops the oldest turns beyond `MAX_TURNS`.
pub fn push_turn(turns: &mut Vec<Turn>, turn: Turn)
    ensures
        turn_views(final(turns)@) == last_items(
            turn_views(old(turns)@).push(turn@),
            MAX_TURNS as int,
        ),
{
    let ghost all = turn_views(turns@).push(turn@);
    turns.push(turn);
    assert(turn_views(turns@) =~= all);
    while turns.len() > MAX_TURNS
        invariant
            turns.len() <= all.len(),
            all.len() > MAX_TURNS ==> turns.len() >= MAX_TURNS,
            all.len() <= MAX_TURNS ==> turns.len() == all.len(),
            turn_views(turns@) == all.skip(all.len() - turns.len()),
        decreases turns.len(),
    {
        let ghost before = turn_views(turns@);
        turns.remove(0);
        assert(turn_views(turns@) =~= before.drop_first());
        assert(before.drop_first() =~= all.skip(all.len() - turns.len()));
    }
    assert(all.skip(0) =~= all);
}

/// Adds to `have` those of `found` that it does not hold yet.
pub fn add_missing(have: &mut Vec<String>, found: &Vec<String>)
    ensures
        final(have).deep_view() == with_missing(old(have).deep_view(), found.deep_view()),
{
    let ghost start = have.deep_view();
    let mut i: usize = 0;
    while i < found.len()
        invariant
            i <= found.len(),
            have.deep_view() == with_missing(start, found.deep_view().take(i as int)),
        decreases found.len() - i,
    {
        let ghost before = have.deep_view();
        proof {
            assert(found.deep_view().take(i + 1).drop_last() =~= found.deep_view().take(i as int));
            assert(found.deep_view().take(i + 1).last() == found[i as int]@);
        }
        if !contains_word(have, &found[i]) {
            have.push(found[i].clone());
            assert(have.deep_view() =~= before.push(found[i as int]@));
        }
        i += 1;
    }
    assert(found.deep_view().take(found.len() as int) =~= found.deep_view());
}

/// The session to go on with when a prompt of the session `session_id`
/// arrives: the running one where it has that id, else a new one for the
/// project `project`.
pub fn continue_session(session: SessionData, session_id: &str, project: &str) -> (next:
    SessionData)
    ensures
        session.session_id@ == session_id@ ==> next == session,
        session.session_id@ != session_id@ ==> next.session_id@ == session_id@ && next.project@
            == project@ && next.turns@.len() == 0 && next.tools@.len() == 0 && next.files@.len()
            == 0,
{
    if str_eq(session.session_id.as_str(), session_id) {
        session
    } else {
        SessionData {
            turns: Vec::new(),
            session_id: session_id.to_owned(),
            project: project.to_owned(),
            tools: Vec::new(),
            files: Vec::new(),
        }
    }
}

/// The turn that records a prompt of the user.
pub open spec fn prompt_turn(prompt: Seq<char>, timestamp: Seq<char>) -> TurnView {
    TurnView {
        role: "user"@,
        content: prefix(prompt, MAX_PROMPT_CHARS as int),
        timestamp,
    }
}

/// The content of the turn that records an answer of the assistant.
pub open spec fn answer_content(tool_names: Seq<Seq<char>>) -> Seq<char> {
    if tool_names.len() == 0 {
        "Responded"@
    } else {
        "Tools: "@ + join(tool_names, ", "@)
    }
}

/// Records a prompt of the user in the session. A prompt of another
/// session starts a new record. The files that the prompt mentions are
/// added to those of the session, and the prompt, cut to
/// `MAX_PROMPT_CHARS` characters, becomes its newest turn. An empty
/// prompt is not recorded.
pub fn record_prompt(
    session: SessionData,
    session_id: &str,
    project: &str,
    prompt: &str,
    timestamp: &str,
) -> (next: Option<SessionData>)
    ensures
        next is None <==> prompt@.len() == 0,
        next matches Some(n) ==> {
            let same = session.session_id@ == session_id@;
            &&& n.session_id@ == session_id@
            &&& n.project@ == (if same {
                session.project@
            } else {
                project@
            })
            &&& n.tools.deep_view() == (if same {
                session.tools.deep_view()
            } else {
                Seq::empty()
            })
            &&& exists|found: Seq<Seq<char>>|
                is_extraction(prompt@, found) && n.files.deep_view() == with_missing(
                    if same {
                        session.files.deep_view()
                    } else {
                        Seq::empty()
                    },
                    found,
                )
            &&& turn_views(n.turns@) == last_items(
                (if same {
                    turn_views(session.turns@)
                } else {
                    Seq::empty()
                }).push(prompt_turn(prompt@, timestamp@)),
                MAX_TURNS as int,
            )
        },
{
    if prompt.is_empty() {
        return None;
    }
    let ghost same = session.session_id@ == session_id@;
    let mut next = continue_session(session, session_id, project);
    proof {
        if !same {
            assert(next.tools.deep_view() =~= Seq::<Seq<char>>::empty());
            assert(next.files.deep_view() =~= Seq::<Seq<char>>::empty());
            assert(turn_views(next.turns@) =~= Seq::<TurnView>::empty());
        }
    }
    let found = extract_files(prompt);
    add_missing(&mut next.files, &found);
    let turn = Turn {
        role: "user".to_owned(),
        content: take_chars(prompt, MAX_PROMPT_CHARS),
        timestamp: timestamp.to_owned(),
    };
    assert(turn@ == prompt_turn(prompt@, timestamp@));
    push_turn(&mut next.turns, turn);
    assert(is_extraction(prompt@, found.deep_view()));
    Some(next)
}

/// Records an answer of the assistant in the session: the tools that it
/// used are added to those of the session, and a turn that names them
/// becomes the newest turn.
pub fn record_stop(session: SessionData, tool_names: &Vec<String>, timestamp: &str) -> (next:
    SessionData)
    ensures
        next.session_id == session.session_id,
        next.project == session.project,
        next.files == session.files,
        next.tools.deep_view() == with_missing(session.tools.deep_view(), tool_names.deep_view()),
        turn_views(next.turns@) == last_items(
            turn_views(session.turns@).push(
                TurnView {
                    role: "assistant"@,
                    content: answer_content(tool_names.deep_view()),
                    timestamp: timestamp@,
                },
            ),
            MAX_TURNS as int,
        ),
{
    let mut next = session;
    add_missing(&mut next.tools, tool_names);
    let content = if tool_names.len() == 0 {
        "Responded".to_owned()
    } else {
        let mut text = String::new();
        text.append("Tools: ");
        text.append(join_with(tool_names, 0, tool_names.len(), ", ").as_str());
        assert(tool_names.deep_view().subrange(0, tool_names.len() as int)
            =~= tool_names.deep_view());
        text
    };
    let turn = Turn { role: "assistant".to_owned(), content, timestamp: timestamp.to_owned() };
    push_turn(&mut next.turns, turn);
    next
}

/// The tags of the memory of a session of the project `project` that the
/// client `client` held.
pub open spec fn session_tags_of(client: Seq<char>, project: Seq<char>) -> Seq<char> {
    "conversation,"@ + client + ","@ + project + ",auto-saved"@
}

/// The tags of the memory of a session.
pub fn session_tags(client: &str, project: &str) -> (tags: String)
    ensures
        tags@ == session_tags_of(client@, project@),
{
    let mut tags = String::new();
    tags.append("conversation,");
    tags.append(client);
    tags.append(",");
    tags.append(project);
    tags.append(",auto-saved");
    assert(tags@ =~= session_tags_of(client@, project@));
    tags
}

/// The lookup of a memory by its id.
pub const SESSION_LOOKUP_SQL: &'static str = "SELECT 1 FROM memories WHERE id = ?";

/// The overwrite of the memory of a session.
pub const SESSION_UPDATE_SQL: &'static str =
    "UPDATE memories SET content = ?, tags = ?, \
     updated_at = datetime('now'), embedding = NULL WHERE id = ?";

/// The first write of the memory of a session.
pub const SESSION_INSERT_SQL: &'static str =
    "INSERT INTO memories (id, type, content, tags) \
     VALUES (?, 'conversation', ?, ?)";

/// The statement that asks whether the memory `mem_id` is there.
pub fn session_lookup(mem_id: &str) -> (st: Statement)
    ensures
        st.sql == SESSION_LOOKUP_SQL,
        st.bound() == seq![ParamView::Text(mem_id@)],
{
    statement_1(SESSION_LOOKUP_SQL, text_param(mem_id))
}

/// The statement that writes the memory of `session` under `mem_id`: an
/// overwrite where the memory is there, else a first write. Its content is
/// the content of the session, its tags those of the client and the
/// project.
pub fn session_write(session: &SessionData, client: &str, mem_id: &str, exists: bool) -> (st:
    Statement)
    ensures
        exists ==> st.sql == SESSION_UPDATE_SQL && st.bound() == seq![
            ParamView::Text(session_content(*session)),
            ParamView::Text(session_tags_of(client@, session.project@)),
            ParamView::Text(mem_id@),
        ],
        !exists ==> st.sql == SESSION_INSERT_SQL && st.bound() == seq![
            ParamView::Text(mem_id@),
            ParamView::Text(session_content(*session)),
            ParamView::Text(session_tags_of(client@, session.project@)),
        ],
{
    let content = SqlParam::Text(build_session_content(session));
    let tags = SqlParam::Text(session_tags(client, session.project.as_str()));
    if exists {
        statement_3(SESSION_UPDATE_SQL, content, tags, text_param(mem_id))
    } else {
        statement_3(SESSION_INSERT_SQL, text_param(mem_id), content, tags)
    }
}

/// Whether the answer to a lookup holds a row; an answer that failed holds
/// none.
pub fn row_found(answer: &Result<Vec<SqlRow>, rusqlite::Error>) -> (found: bool)
    ensures
        found == (answer matches Ok(rows) && rows.len() > 0),
{
    match answer {
        Ok(rows) => rows.len() > 0,
        Err(_) => false,
    }
}

/// The id that was written, where the engine carried the write out.
pub fn written_id(answer: Result<usize, rusqlite::Error>, mem_id: String) -> (id: Option<String>)
    ensures
        id is Some <==> answer is Ok,
        id matches Some(written) ==> written == mem_id,
{
    match answer {
        Ok(_) => Some(mem_id),
        Err(_) => None,
    }
}

/// Writes the memory of the session into the corpus: under the id of the
/// session, of type `conversation`, tagged with the client and the project,
/// in place of what an earlier turn of the same session wrote, with its
/// vector cleared. A session without an id is not written, and an engine
/// that fails gives `None`.
pub fn save_to_db(conn: &rusqlite::Connection, session: &SessionData, client: &str) -> (id:
    Option<String>)
    ensures
        session.session_id@.len() == 0 ==> id is None,
        id matches Some(written) ==> written@ == short_hash(session_text(session.session_id@)),
{
    if session.session_id.as_str().is_empty() {
        return None;
    }
    let mem_id = session_memory_id(session.session_id.as_str());
    let lookup = session_lookup(mem_id.as_str());
    let exists = row_found(&run_query(conn, lookup.sql, &lookup.params));
    let write = session_write(session, client, mem_id.as_str(), exists);
    written_id(run_statement(conn, write.sql, &write.params), mem_id)
}

} // verus!
