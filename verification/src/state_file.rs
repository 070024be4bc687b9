//! The format of the file that keeps "what did I put away".
//!
//! The panel button is not the only way to show the desktop: a touchpad
//! gesture runs the same binary with `--toggle`, in a separate process. So the
//! remembered set lives in a file, one identifier per line, which both read
//! before acting and write after. Toplevel identifiers are opaque strings from
//! the compositor and never contain newlines, so the format needs no escaping.
use vstd::prelude::*;
use crate::show_desktop::key_views;
use crate::seq_facts::{lemma_filter_all, lemma_filter_push, lemma_map_values_push, lemma_take_succ};

verus! {

/// The characters that `char::is_whitespace` accepts: Unicode `White_Space`.
pub open spec fn is_space(c: char) -> bool {
    let n = c as u32;
    ||| 0x09 <= n <= 0x0D
    ||| n == 0x20
    ||| n == 0x85
    ||| n == 0xA0
    ||| n == 0x1680
    ||| 0x2000 <= n <= 0x200A
    ||| n == 0x2028
    ||| n == 0x2029
    ||| n == 0x202F
    ||| n == 0x205F
    ||| n == 0x3000
}

/// The text with its leading whitespace removed.
pub open spec fn trim_start(s: Seq<char>) -> Seq<char>
    decreases s.len(),
{
    if s.len() > 0 && is_space(s[0]) {
        trim_start(s.drop_first())
    } else {
        s
    }
}

/// The text with its trailing whitespace removed.
pub open spec fn trim_end(s: Seq<char>) -> Seq<char>
    decreases s.len(),
{
    if s.len() > 0 && is_space(s.last()) {
        trim_end(s.drop_last())
    } else {
        s
    }
}

/// The text with whitespace removed at both ends, as `str::trim` does.
pub open spec fn trim(s: Seq<char>) -> Seq<char> {
    trim_end(trim_start(s))
}

/// The pieces of the text between newlines; a text without any newline is a
/// single piece, and a newline at the very end leaves an empty last piece.
pub open spec fn split_lines(s: Seq<char>) -> Seq<Seq<char>>
    decreases s.len(),
{
    if s.len() == 0 {
        seq![Seq::<char>::empty()]
    } else {
        let lines = split_lines(s.drop_last());
        if s.last() == '\n' {
            lines.push(Seq::<char>::empty())
        } else {
            lines.update(lines.len() - 1, lines.last().push(s.last()))
        }
    }
}

/// Each line trimmed, with the lines that are then empty left out.
pub open spec fn entries(lines: Seq<Seq<char>>) -> Seq<Seq<char>> {
    lines.map_values(|line: Seq<char>| trim(line)).filter(|entry: Seq<char>| entry.len() > 0)
}

/// What a file with these contents remembers.
pub open spec fn parsed(contents: Seq<char>) -> Seq<Seq<char>> {
    entries(split_lines(contents))
}

/// The identifiers separated by newlines.
pub open spec fn joined(ids: Seq<Seq<char>>) -> Seq<char>
    decreases ids.len(),
{
    if ids.len() == 0 {
        Seq::<char>::empty()
    } else if ids.len() == 1 {
        ids[0]
    } else {
        joined(ids.drop_last()) + seq!['\n'] + ids.last()
    }
}

/// The file contents that stand for these identifiers: one per line, each
/// line ended by a newline (an empty set is written as a single newline).
pub open spec fn encoded(ids: Seq<Seq<char>>) -> Seq<char> {
    joined(ids) + seq!['\n']
}

/// The text of each string.
pub open spec fn texts(strings: Seq<String>) -> Seq<Seq<char>> {
    key_views(strings)
}

/// Appends one character through `String::push`. Trusted, not proved: the
/// contract claims what its documentation says, that the text afterwards is
/// the text before followed by `c`.
#[verifier::external_body]
fn push_char(text: &mut String, c: char)
    ensures
        final(text)@ == old(text)@.push(c),
{
    text.push(c);
}

/// Whether `char::is_whitespace` holds of `c`.
fn is_space_char(c: char) -> (space: bool)
    ensures
        space == is_space(c),
{
    let n = c as u32;
    (0x09 <= n && n <= 0x0D) || n == 0x20 || n == 0x85 || n == 0xA0 || n == 0x1680 || (0x2000 <= n
        && n <= 0x200A) || n == 0x2028 || n == 0x2029 || n == 0x202F || n == 0x205F || n == 0x3000
}

proof fn lemma_trim_start_step(s: Seq<char>, i: int)
    requires
        0 <= i < s.len(),
        is_space(s[i]),
    ensures
        trim_start(s.skip(i)) == trim_start(s.skip(i + 1)),
{
    assert(s.skip(i).drop_first() =~= s.skip(i + 1));
}

proof fn lemma_trim_end_step(s: Seq<char>, a: int, b: int)
    requires
        0 <= a < b <= s.len(),
        is_space(s[b - 1]),
    ensures
        trim_end(s.subrange(a, b)) == trim_end(s.subrange(a, b - 1)),
{
    assert(s.subrange(a, b).drop_last() =~= s.subrange(a, b - 1));
}

/// The line with whitespace removed at both ends, as a string.
fn trimmed(line: &Vec<char>) -> (entry: String)
    ensures
        entry@ == trim(line@),
{
    let len = line.len();
    let mut start: usize = 0;
    proof {
        assert(line@.skip(0) =~= line@);
    }
    while start < len
        invariant
            len == line@.len(),
            start <= len,
            trim_start(line@) == trim_start(line@.skip(start as int)),
        ensures
            start <= len,
            trim_start(line@) == trim_start(line@.skip(start as int)),
            start == len || !is_space(line@[start as int]),
        decreases len - start,
    {
        if !is_space_char(line[start]) {
            break;
        }
        proof {
            lemma_trim_start_step(line@, start as int);
        }
        start += 1;
    }
    proof {
        assert(trim_start(line@.skip(start as int)) == line@.skip(start as int));
        assert(line@.skip(start as int) =~= line@.subrange(start as int, len as int));
    }
    let mut end: usize = len;
    while end > start
        invariant
            len == line@.len(),
            start <= end <= len,
            trim(line@) == trim_end(line@.subrange(start as int, end as int)),
        ensures
            start <= end <= len,
            trim(line@) == trim_end(line@.subrange(start as int, end as int)),
            end == start || !is_space(line@[end - 1]),
        decreases end - start,
    {
        if !is_space_char(line[end - 1]) {
            break;
        }
        proof {
            lemma_trim_end_step(line@, start as int, end as int);
        }
        end -= 1;
    }
    proof {
        assert(trim_end(line@.subrange(start as int, end as int)) == line@.subrange(
            start as int,
            end as int,
        ));
    }
    let mut entry = String::new();
    let mut k: usize = start;
    while k < end
        invariant
            len == line@.len(),
            start <= k <= end <= len,
            entry@ == line@.subrange(start as int, k as int),
        decreases end - k,
    {
        push_char(&mut entry, line[k]);
        proof {
            assert(line@.subrange(start as int, k + 1) =~= line@.subrange(start as int, k as int).push(
                line@[k as int],
            ));
        }
        k += 1;
    }
    entry
}


proof fn lemma_split_lines_nonempty(s: Seq<char>)
    ensures
        split_lines(s).len() >= 1,
    decreases s.len(),
{
    if s.len() > 0 {
        lemma_split_lines_nonempty(s.drop_last());
    }
}

proof fn lemma_entries_push(lines: Seq<Seq<char>>, line: Seq<char>)
    ensures
        entries(lines.push(line)) == (if trim(line).len() > 0 {
            entries(lines).push(trim(line))
        } else {
            entries(lines)
        }),
{
    let tr = |l: Seq<char>| trim(l);
    let keep = |e: Seq<char>| e.len() > 0;
    lemma_map_values_push(lines, line, tr);
    lemma_filter_push(lines.map_values(tr), trim(line), keep);
}

proof fn lemma_split_lines_step(s: Seq<char>, c: char)
    ensures
        split_lines(s.push(c)) == (if c == '\n' {
            split_lines(s).push(Seq::<char>::empty())
        } else {
            split_lines(s).update(split_lines(s).len() - 1, split_lines(s).last().push(c))
        }),
{
    assert(s.push(c).drop_last() =~= s);
}

/// Adds the line, trimmed, to the identifiers, unless it is then empty.
fn take_line(ids: &mut Vec<String>, line: &Vec<char>)
    ensures
        texts(final(ids)@) == (if trim(line@).len() > 0 {
            texts(old(ids)@).push(trim(line@))
        } else {
            texts(old(ids)@)
        }),
{
    let entry = trimmed(line);
    if !entry.as_str().is_empty() {
        let ghost before = ids@;
        ids.push(entry);
        proof {
            lemma_map_values_push(before, entry, |s: String| s@);
        }
    }
}

/// Reads the remembered set back: one identifier per line, each trimmed, and
/// the lines left empty by that ignored.
///
/// A half-written file, or one someone edited by hand, must not turn into
/// identifiers that match no window.
pub fn parse(contents: &str) -> (ids: Vec<String>)
    ensures
        texts(ids@) == parsed(contents@),
{
    let mut ids: Vec<String> = Vec::new();
    let mut line: Vec<char> = Vec::new();
    proof {
        assert(contents@.take(0) =~= Seq::<char>::empty());
        assert(texts(ids@) =~= Seq::<Seq<char>>::empty());
        assert(entries(Seq::<Seq<char>>::empty()) =~= Seq::<Seq<char>>::empty()) by {
            reveal(Seq::filter);
        }
    }
    for c in it: contents.chars()
        invariant
            it.seq() == contents@,
            line@ == split_lines(contents@.take(it.index())).last(),
            texts(ids@) == entries(split_lines(contents@.take(it.index())).drop_last()),
    {
        let ghost prefix = contents@.take(it.index());
        let ghost lines = split_lines(prefix);
        proof {
            lemma_split_lines_nonempty(prefix);
            lemma_take_succ(contents@, it.index());
            lemma_split_lines_step(prefix, c);
            assert(lines =~= lines.drop_last().push(lines.last()));
            lemma_entries_push(lines.drop_last(), lines.last());
        }
        if c == '\n' {
            take_line(&mut ids, &line);
            line = Vec::new();
            proof {
                assert(lines.push(Seq::<char>::empty()).drop_last() =~= lines);
            }
        } else {
            line.push(c);
            proof {
                let next = lines.update(lines.len() - 1, lines.last().push(c));
                assert(next.drop_last() =~= lines.drop_last());
            }
        }
    }
    proof {
        let lines = split_lines(contents@);
        assert(contents@.take(contents@.len() as int) =~= contents@);
        lemma_split_lines_nonempty(contents@);
        assert(lines =~= lines.drop_last().push(lines.last()));
        lemma_entries_push(lines.drop_last(), lines.last());
    }
    take_line(&mut ids, &line);
    ids
}

/// Writes the remembered set down: the identifiers joined by newlines, and a
/// newline at the end. Identifiers never contain newlines, so this needs no
/// escaping, and it stays readable when someone goes looking.
pub fn encode(identifiers: &[String]) -> (contents: String)
    ensures
        contents@ == encoded(texts(identifiers@)),
{
    let ghost ids = texts(identifiers@);
    let mut out = String::new();
    let mut i: usize = 0;
    while i < identifiers.len()
        invariant
            i <= identifiers@.len(),
            ids == texts(identifiers@),
            out@ == joined(ids.take(i as int)),
        decreases identifiers@.len() - i,
    {
        proof {
            lemma_take_succ(ids, i as int);
            assert(ids.take(i + 1).drop_last() =~= ids.take(i as int));
        }
        if i > 0 {
            push_char(&mut out, '\n');
        } else {
            proof {
                assert(out@ =~= Seq::<char>::empty());
            }
        }
        out.append(identifiers[i].as_str());
        i += 1;
    }
    proof {
        assert(ids.take(identifiers@.len() as int) =~= ids);
    }
    push_char(&mut out, '\n');
    out
}


/// An identifier that the file keeps as it is: not empty, no whitespace at
/// either end, and no newline anywhere.
pub open spec fn storable(id: Seq<char>) -> bool {
    &&& id.len() > 0
    &&& !is_space(id[0])
    &&& !is_space(id.last())
    &&& forall|i: int| 0 <= i < id.len() ==> #[trigger] id[i] != '\n'
}

proof fn lemma_split_lines_append(a: Seq<char>, b: Seq<char>)
    requires
        forall|i: int| 0 <= i < b.len() ==> #[trigger] b[i] != '\n',
    ensures
        split_lines(a).len() >= 1,
        split_lines(a + b) == split_lines(a).update(
            split_lines(a).len() - 1,
            split_lines(a).last() + b,
        ),
    decreases b.len(),
{
    lemma_split_lines_nonempty(a);
    let lines = split_lines(a);
    if b.len() == 0 {
        assert(a + b =~= a);
        assert(lines.last() + b =~= lines.last());
        assert(lines.update(lines.len() - 1, lines.last()) =~= lines);
    } else {
        let b0 = b.drop_last();
        lemma_split_lines_append(a, b0);
        assert((a + b).drop_last() =~= a + b0);
        assert((a + b).last() == b.last());
        assert((lines.last() + b0).push(b.last()) =~= lines.last() + b);
        let mid = lines.update(lines.len() - 1, lines.last() + b0);
        assert(mid.update(mid.len() - 1, mid.last().push(b.last())) =~= lines.update(
            lines.len() - 1,
            lines.last() + b,
        ));
    }
}

proof fn lemma_split_lines_joined(ids: Seq<Seq<char>>)
    requires
        ids.len() >= 1,
        forall|k: int| 0 <= k < ids.len() ==> storable(#[trigger] ids[k]),
    ensures
        split_lines(joined(ids)) == ids,
    decreases ids.len(),
{
    if ids.len() == 1 {
        lemma_split_lines_append(Seq::<char>::empty(), ids[0]);
        assert(Seq::<char>::empty() + ids[0] =~= ids[0]);
        assert(split_lines(Seq::<char>::empty()).update(0, ids[0]) =~= ids);
    } else {
        let rest = ids.drop_last();
        lemma_split_lines_joined(rest);
        let head = joined(rest) + seq!['\n'];
        assert(head.drop_last() =~= joined(rest));
        lemma_split_lines_append(head, ids.last());
        let lines = split_lines(head);
        assert(lines == rest.push(Seq::<char>::empty()));
        assert(Seq::<char>::empty() + ids.last() =~= ids.last());
        assert(lines.update(lines.len() - 1, ids.last()) =~= ids);
    }
}

proof fn lemma_trim_storable(id: Seq<char>)
    requires
        storable(id),
    ensures
        trim(id) == id,
{
}

/// A written set reads back the same: whatever identifiers the file can keep
/// as they are come back from it in the same order, none lost and none added.
pub proof fn lemma_written_set_reads_back(ids: Seq<Seq<char>>)
    requires
        forall|k: int| 0 <= k < ids.len() ==> storable(#[trigger] ids[k]),
    ensures
        parsed(encoded(ids)) == ids,
{
    let text = encoded(ids);
    assert(text.drop_last() =~= joined(ids));
    if ids.len() == 0 {
        assert(joined(ids) =~= Seq::<char>::empty());
    } else {
        lemma_split_lines_joined(ids);
    }
    let lines = split_lines(text);
    assert(lines == split_lines(joined(ids)).push(Seq::<char>::empty()));
    if ids.len() == 0 {
        assert(split_lines(joined(ids)) =~= seq![Seq::<char>::empty()]);
        lemma_entries_push(Seq::<Seq<char>>::empty(), Seq::<char>::empty());
        lemma_entries_push(seq![Seq::<char>::empty()], Seq::<char>::empty());
        assert(seq![Seq::<char>::empty()] =~= Seq::<Seq<char>>::empty().push(Seq::<char>::empty()));
        assert(entries(Seq::<Seq<char>>::empty()) =~= Seq::<Seq<char>>::empty()) by {
            reveal(Seq::filter);
        }
    } else {
        lemma_entries_push(ids, Seq::<char>::empty());
        let tr = |l: Seq<char>| trim(l);
        assert forall|k: int| 0 <= k < ids.len() implies #[trigger] ids[k] == trim(ids[k]) by {
            lemma_trim_storable(ids[k]);
        }
        assert(ids.map_values(tr) =~= ids);
        lemma_filter_all(ids, |e: Seq<char>| e.len() > 0);
    }
}


proof fn lemma_split_lines_have_no_newline(s: Seq<char>)
    ensures
        forall|k: int, i: int|
            0 <= k < split_lines(s).len() && 0 <= i < split_lines(s)[k].len() ==> #[trigger] split_lines(s)[k][i]
                != '\n',
    decreases s.len(),
{
    if s.len() > 0 {
        lemma_split_lines_have_no_newline(s.drop_last());
        lemma_split_lines_nonempty(s.drop_last());
    }
}

proof fn lemma_trim_start_suffix(s: Seq<char>)
    ensures
        trim_start(s).len() <= s.len(),
        trim_start(s) == s.skip(s.len() - trim_start(s).len()),
        trim_start(s).len() > 0 ==> !is_space(trim_start(s)[0]),
        forall|k: int| 0 <= k < s.len() - trim_start(s).len() ==> is_space(#[trigger] s[k]),
    decreases s.len(),
{
    if s.len() > 0 && is_space(s[0]) {
        lemma_trim_start_suffix(s.drop_first());
        assert forall|k: int| 0 <= k < s.len() - trim_start(s).len() implies is_space(#[trigger] s[k]) by {
            if k > 0 {
                assert(s[k] == s.drop_first()[k - 1]);
            }
        }
        assert(s.drop_first().skip(s.drop_first().len() - trim_start(s).len()) =~= s.skip(
            s.len() - trim_start(s).len(),
        ));
    } else {
        assert(s.skip(0) =~= s);
    }
}

proof fn lemma_trim_end_prefix(s: Seq<char>)
    ensures
        trim_end(s).len() <= s.len(),
        trim_end(s) == s.take(trim_end(s).len() as int),
        trim_end(s).len() > 0 ==> !is_space(trim_end(s).last()),
        forall|k: int| trim_end(s).len() <= k < s.len() ==> is_space(#[trigger] s[k]),
    decreases s.len(),
{
    if s.len() > 0 && is_space(s.last()) {
        lemma_trim_end_prefix(s.drop_last());
        assert forall|k: int| trim_end(s).len() <= k < s.len() implies is_space(#[trigger] s[k]) by {
            if k < s.len() - 1 {
                assert(s[k] == s.drop_last()[k]);
            }
        }
        assert(s.drop_last().take(trim_end(s).len() as int) =~= s.take(trim_end(s).len() as int));
    } else {
        assert(s.take(s.len() as int) =~= s);
    }
}

proof fn lemma_trimmed_line_storable(line: Seq<char>)
    requires
        forall|i: int| 0 <= i < line.len() ==> #[trigger] line[i] != '\n',
        trim(line).len() > 0,
    ensures
        storable(trim(line)),
{
    let t = trim_start(line);
    lemma_trim_start_suffix(line);
    lemma_trim_end_prefix(t);
    let e = trim_end(t);
    assert(e[0] == t[0]);
    assert forall|i: int| 0 <= i < e.len() implies #[trigger] e[i] != '\n' by {
        assert(e[i] == t[i]);
        assert(t[i] == line[line.len() - t.len() + i]);
    }
}

/// Every identifier read back is one the file keeps as it is: stray
/// whitespace never invents an entry, so writing what was read and reading it
/// again gives the same set.
pub proof fn lemma_read_entries_are_storable(contents: Seq<char>)
    ensures
        forall|k: int| 0 <= k < parsed(contents).len() ==> storable(#[trigger] parsed(contents)[k]),
        parsed(encoded(parsed(contents))) == parsed(contents),
{
    broadcast use vstd::seq_lib::group_filter_ensures;

    let lines = split_lines(contents);
    let tr = |l: Seq<char>| trim(l);
    let keep = |e: Seq<char>| e.len() > 0;
    let trimmed_lines = lines.map_values(tr);
    let out = parsed(contents);
    lemma_split_lines_have_no_newline(contents);
    assert forall|k: int| 0 <= k < out.len() implies storable(#[trigger] out[k]) by {
        assert(keep(out[k]));
        assert(out.contains(out[k]));
        trimmed_lines.lemma_filter_contains_rev(keep, out[k]);
        let j = choose|j: int| 0 <= j < trimmed_lines.len() && trimmed_lines[j] == out[k];
        assert(trimmed_lines[j] == trim(lines[j]));
        assert forall|i: int| 0 <= i < lines[j].len() implies #[trigger] lines[j][i] != '\n' by {
        }
        lemma_trimmed_line_storable(lines[j]);
    }
    lemma_written_set_reads_back(out);
}


/// What saving a remembered set does to the file.
#[derive(Debug, PartialEq, Eq)]
pub enum StateFileChange {
    /// Remove the file: an empty set leaves no empty file behind.
    Remove,
    /// Replace the file's contents with these.
    Write(String),
}

/// How to save the remembered set: remove the file when the set is empty,
/// else write the set out.
pub fn change_for(identifiers: &[String]) -> (change: StateFileChange)
    ensures
        identifiers@.len() == 0 <==> change == StateFileChange::Remove,
        change matches StateFileChange::Write(contents) ==> contents@ == encoded(
            texts(identifiers@),
        ),
{
    if identifiers.len() == 0 {
        StateFileChange::Remove
    } else {
        StateFileChange::Write(encode(identifiers))
    }
}

/// Trimming cuts exactly the whitespace at both ends: what is left is a piece
/// of the text with only whitespace before and after it, and, unless it is
/// empty, no whitespace at its first or last character.
pub proof fn lemma_trim_cuts_whitespace_at_both_ends(s: Seq<char>)
    ensures
        exists|i: int, j: int|
            {
                &&& 0 <= i <= j <= s.len()
                &&& trim(s) == s.subrange(i, j)
                &&& forall|k: int| 0 <= k < i ==> is_space(#[trigger] s[k])
                &&& forall|k: int| j <= k < s.len() ==> is_space(#[trigger] s[k])
                &&& i < j ==> !is_space(s[i]) && !is_space(s[j - 1])
            },
{
    let t = trim_start(s);
    lemma_trim_start_suffix(s);
    lemma_trim_end_prefix(t);
    let i = s.len() - t.len();
    let j = i + trim_end(t).len();
    assert(trim(s) =~= s.subrange(i, j));
    assert forall|k: int| j <= k < s.len() implies is_space(#[trigger] s[k]) by {
        assert(s[k] == t[k - i]);
    }
    if i < j {
        assert(s[i] == trim(s)[0]);
        assert(s[j - 1] == trim(s).last());
    }
}

/// The characters that count as whitespace are exactly those of Unicode's
/// `White_Space` list, as `char::is_whitespace` has them.
pub proof fn lemma_whitespace_is_unicode_white_space(c: char)
    ensures
        is_space(c) <==> (c == '\t' || c == '\n' || c == '\u{0B}' || c == '\u{0C}' || c == '\r'
            || c == ' ' || c == '\u{85}' || c == '\u{A0}' || c == '\u{1680}' || ('\u{2000}' as u32
            <= c as u32 <= '\u{200A}' as u32) || c == '\u{2028}' || c == '\u{2029}' || c
            == '\u{202F}' || c == '\u{205F}' || c == '\u{3000}'),
{
}

proof fn lemma_split_lines_concat(a: Seq<char>, b: Seq<char>)
    ensures
        split_lines(a + seq!['\n'] + b) == split_lines(a) + split_lines(b),
    decreases b.len(),
{
    let head = a + seq!['\n'];
    assert(head.drop_last() =~= a);
    lemma_split_lines_nonempty(a);
    lemma_split_lines_nonempty(b);
    if b.len() == 0 {
        assert(head + b =~= head);
        assert(split_lines(a).push(Seq::<char>::empty()) =~= split_lines(a) + split_lines(b));
    } else {
        let b0 = b.drop_last();
        lemma_split_lines_concat(a, b0);
        lemma_split_lines_nonempty(b0);
        assert((head + b).drop_last() =~= head + b0);
        assert((head + b).last() == b.last());
        let x = split_lines(a);
        let y = split_lines(b0);
        if b.last() == '\n' {
            assert((x + y).push(Seq::<char>::empty()) =~= x + y.push(Seq::<char>::empty()));
        } else {
            assert((x + y).update((x + y).len() - 1, (x + y).last().push(b.last())) =~= x + y.update(
                y.len() - 1,
                y.last().push(b.last()),
            ));
        }
    }
}

/// Reading a file line by line: what two pieces joined by a newline give is
/// what the first gives followed by what the second gives, and a single line
/// gives its trimmed text, unless that is empty.
pub proof fn lemma_reading_goes_line_by_line(a: Seq<char>, b: Seq<char>, line: Seq<char>)
    requires
        forall|k: int| 0 <= k < line.len() ==> #[trigger] line[k] != '\n',
    ensures
        parsed(a + seq!['\n'] + b) == parsed(a) + parsed(b),
        parsed(Seq::<char>::empty()) == Seq::<Seq<char>>::empty(),
        trim(line).len() > 0 ==> parsed(line) == seq![trim(line)],
        trim(line).len() == 0 ==> parsed(line) == Seq::<Seq<char>>::empty(),
{
    lemma_split_lines_concat(a, b);
    let tr = |l: Seq<char>| trim(l);
    let keep = |e: Seq<char>| e.len() > 0;
    let x = split_lines(a);
    let y = split_lines(b);
    assert((x + y).map_values(tr) =~= x.map_values(tr) + y.map_values(tr));
    Seq::filter_distributes_over_add(x.map_values(tr), y.map_values(tr), keep);
    assert(entries(Seq::<Seq<char>>::empty()) =~= Seq::<Seq<char>>::empty()) by {
        reveal(Seq::filter);
    }
    lemma_entries_push(Seq::<Seq<char>>::empty(), Seq::<char>::empty());
    assert(split_lines(Seq::<char>::empty()) =~= Seq::<Seq<char>>::empty().push(Seq::<char>::empty()));
    lemma_split_lines_append(Seq::<char>::empty(), line);
    assert(Seq::<char>::empty() + line =~= line);
    assert(split_lines(line) =~= Seq::<Seq<char>>::empty().push(line));
    lemma_entries_push(Seq::<Seq<char>>::empty(), line);
    assert(Seq::<Seq<char>>::empty().push(trim(line)) =~= seq![trim(line)]);
}

/// Writing a set: an empty set is a lone newline, and each identifier is
/// written after those before it, followed by a newline of its own.
pub proof fn lemma_writing_ends_each_identifier_with_a_newline(ids: Seq<Seq<char>>, id: Seq<char>)
    ensures
        encoded(Seq::<Seq<char>>::empty()) == seq!['\n'],
        encoded(seq![id]) == id + seq!['\n'],
        ids.len() > 0 ==> encoded(ids.push(id)) == encoded(ids) + id + seq!['\n'],
{
    assert(Seq::<char>::empty() + seq!['\n'] =~= seq!['\n']);
    assert(seq![id].len() == 1);
    if ids.len() > 0 {
        assert(ids.push(id).drop_last() =~= ids);
        assert(joined(ids.push(id)) == joined(ids) + seq!['\n'] + id);
        assert(encoded(ids.push(id)) =~= encoded(ids) + id + seq!['\n']);
    }
}

} // verus!
