//! The index-file mutator: rewrites the textual icon index so that one new
//! entry line appears in sorted position inside the interior block, while the
//! one-line header and the one-line footer stay untouched.
//!
//! The file text is modelled as a sequence of lines: the text is split on
//! `'\n'` after setting aside at most one trailing newline, and joined back
//! with the trailing newline restored, so that splitting and joining are
//! inverse to each other.

use vstd::prelude::*;
use crate::order::key_le;
use crate::order::line_le;
use crate::order::lemma_key_le_total;
use crate::order::lemma_key_le_trans;

verus! {

/// Index of the first `'\n'` in `s`, or `s.len()` if there is none.
pub open spec fn line_break(s: Seq<char>) -> nat
    decreases s.len(),
{
    if s.len() == 0 {
        0
    } else if s[0] == '\n' {
        0
    } else {
        1 + line_break(s.drop_first())
    }
}

pub proof fn lemma_line_break(s: Seq<char>)
    ensures
        line_break(s) <= s.len(),
        forall|j: int| 0 <= j < line_break(s) ==> s[j] != '\n',
        line_break(s) < s.len() ==> s[line_break(s) as int] == '\n',
    decreases s.len(),
{
    if s.len() > 0 && s[0] != '\n' {
        lemma_line_break(s.drop_first());
        assert forall|j: int| 0 <= j < line_break(s) implies s[j] != '\n' by {
            if j > 0 {
                assert(s.drop_first()[j - 1] == s[j]);
            }
        }
        if line_break(s) < s.len() {
            assert(s.drop_first()[line_break(s) - 1] == s[line_break(s) as int]);
        }
    }
}

pub proof fn lemma_line_break_is(s: Seq<char>, b: int)
    requires
        0 <= b <= s.len(),
        forall|j: int| 0 <= j < b ==> s[j] != '\n',
        b < s.len() ==> s[b] == '\n',
    ensures
        line_break(s) == b,
    decreases b,
{
    if b == 0 {
    } else {
        assert(s[0] != '\n');
        assert forall|j: int| 0 <= j < b - 1 implies s.drop_first()[j] != '\n' by {
            assert(s.drop_first()[j] == s[j + 1]);
        }
        if b - 1 < s.drop_first().len() {
            assert(s.drop_first()[b - 1] == s[b]);
        }
        lemma_line_break_is(s.drop_first(), b - 1);
    }
}

/// The lines of a text, splitting on `'\n'`.
pub open spec fn split_lines(s: Seq<char>) -> Seq<Seq<char>>
    decreases s.len(),
{
    let b = line_break(s);
    if b >= s.len() {
        seq![s]
    } else {
        seq![s.subrange(0, b as int)] + split_lines(s.subrange(b as int + 1, s.len() as int))
    }
}

/// The text formed by the given lines, separated by `'\n'`.
pub open spec fn join_lines(ls: Seq<Seq<char>>) -> Seq<char>
    decreases ls.len(),
{
    if ls.len() == 0 {
        Seq::empty()
    } else if ls.len() == 1 {
        ls[0]
    } else {
        ls[0] + seq!['\n'] + join_lines(ls.drop_first())
    }
}

pub proof fn lemma_split_lines_shape(s: Seq<char>)
    ensures
        split_lines(s).len() >= 1,
        forall|i: int| 0 <= i < split_lines(s).len() ==> !(#[trigger] split_lines(s)[i]).contains(
            '\n',
        ),
    decreases s.len(),
{
    let b = line_break(s);
    lemma_line_break(s);
    if b >= s.len() {
        assert forall|i: int|
            0 <= i < split_lines(s).len() implies !(#[trigger] split_lines(s)[i]).contains(
            '\n',
        ) by {
            assert(split_lines(s)[i] == s);
            assert(forall|j: int| 0 <= j < s.len() ==> s[j] != '\n');
        }
    } else {
        let head = s.subrange(0, b as int);
        let rest = s.subrange(b as int + 1, s.len() as int);
        lemma_split_lines_shape(rest);
        assert forall|i: int|
            0 <= i < split_lines(s).len() implies !(#[trigger] split_lines(s)[i]).contains(
            '\n',
        ) by {
            if i == 0 {
                assert(split_lines(s)[0] == head);
                assert(forall|j: int| 0 <= j < head.len() ==> head[j] == s[j] && s[j] != '\n');
            } else {
                assert(split_lines(s)[i] == split_lines(rest)[i - 1]);
            }
        }
    }
}

/// Joining the split of a text gives the text back.
pub proof fn lemma_join_split(s: Seq<char>)
    ensures
        join_lines(split_lines(s)) == s,
    decreases s.len(),
{
    let b = line_break(s);
    lemma_line_break(s);
    if b >= s.len() {
        assert(join_lines(seq![s]) == s);
    } else {
        let head = s.subrange(0, b as int);
        let rest = s.subrange(b as int + 1, s.len() as int);
        lemma_join_split(rest);
        lemma_split_lines_shape(rest);
        let ls = split_lines(s);
        assert(ls == seq![head] + split_lines(rest));
        assert(ls.len() >= 2);
        assert(ls[0] == head);
        assert(ls.drop_first() =~= split_lines(rest));
        assert(join_lines(ls) == head + seq!['\n'] + rest);
        assert(head + seq!['\n'] + rest =~= s);
    }
}

/// Splitting the join of newline-free lines gives the lines back.
pub proof fn lemma_split_join(ls: Seq<Seq<char>>)
    requires
        ls.len() >= 1,
        forall|i: int| 0 <= i < ls.len() ==> !(#[trigger] ls[i]).contains('\n'),
    ensures
        split_lines(join_lines(ls)) == ls,
    decreases ls.len(),
{
    let j = join_lines(ls);
    if ls.len() == 1 {
        assert(j == ls[0]);
        assert(forall|k: int| 0 <= k < j.len() ==> j[k] != '\n') by {
            assert(!ls[0].contains('\n'));
        }
        lemma_line_break_is(j, j.len() as int);
        assert(split_lines(j) =~= ls);
    } else {
        let head = ls[0];
        let rest_join = join_lines(ls.drop_first());
        assert(j == head + seq!['\n'] + rest_join);
        assert(forall|k: int| 0 <= k < head.len() ==> head[k] != '\n') by {
            assert(!ls[0].contains('\n'));
        }
        assert forall|k: int| 0 <= k < head.len() implies j[k] != '\n' by {
            assert(j[k] == head[k]);
        }
        assert(j[head.len() as int] == '\n');
        lemma_line_break_is(j, head.len() as int);
        assert(j.subrange(0, head.len() as int) =~= head);
        assert(j.subrange(head.len() as int + 1, j.len() as int) =~= rest_join);
        assert forall|i: int|
            0 <= i < ls.drop_first().len() implies !(#[trigger] ls.drop_first()[i]).contains(
            '\n',
        ) by {
            assert(ls.drop_first()[i] == ls[i + 1]);
        }
        lemma_split_join(ls.drop_first());
        assert(split_lines(j) == seq![head] + split_lines(rest_join));
        assert(seq![head] + ls.drop_first() =~= ls);
    }
}

/// The join of lines whose last line is nonempty ends in that line's last
/// character, which is not a newline when the lines are newline-free.
pub proof fn lemma_join_last(ls: Seq<Seq<char>>)
    requires
        ls.len() >= 1,
        ls.last().len() > 0,
    ensures
        join_lines(ls).len() > 0,
        join_lines(ls).last() == ls.last().last(),
    decreases ls.len(),
{
    if ls.len() == 1 {
    } else {
        lemma_join_last(ls.drop_first());
        assert(ls.drop_first().last() == ls.last());
        let j = join_lines(ls);
        assert(j == ls[0] + seq!['\n'] + join_lines(ls.drop_first()));
        assert(j.last() == join_lines(ls.drop_first()).last());
    }
}

/// True when the text ends with a newline character.
pub open spec fn ends_with_newline(s: Seq<char>) -> bool {
    s.len() > 0 && s[s.len() - 1] == '\n'
}

/// The text with at most one trailing newline removed.
pub open spec fn strip_trailing_newline(s: Seq<char>) -> Seq<char> {
    if ends_with_newline(s) {
        s.drop_last()
    } else {
        s
    }
}

/// The lines of an index file: the text is split after setting aside at most
/// one trailing newline.
pub open spec fn text_lines(s: Seq<char>) -> Seq<Seq<char>> {
    split_lines(strip_trailing_newline(s))
}

/// The entry block: every line strictly between the header and the footer.
pub open spec fn interior(ls: Seq<Seq<char>>) -> Seq<Seq<char>> {
    ls.subrange(1, ls.len() - 1)
}

/// A well-formed index file has a header line and a nonempty footer line.
pub open spec fn wf_index(s: Seq<char>) -> bool {
    text_lines(s).len() >= 2 && text_lines(s).last().len() > 0
}

/// The interior is sorted by the case-insensitive line order.
pub open spec fn sorted_lines(ls: Seq<Seq<char>>) -> bool {
    forall|i: int, j: int| 0 <= i < j < ls.len() ==> key_le(#[trigger] ls[i], #[trigger] ls[j])
}

/// The position at which a new line lands in a sorted block: the first index
/// whose line is at or above the new one.
pub open spec fn insert_position(ls: Seq<Seq<char>>, l: Seq<char>) -> nat
    decreases ls.len(),
{
    if ls.len() == 0 {
        0
    } else if key_le(l, ls[0]) {
        0
    } else {
        1 + insert_position(ls.drop_first(), l)
    }
}

pub proof fn lemma_insert_position_props(ls: Seq<Seq<char>>, l: Seq<char>)
    ensures
        insert_position(ls, l) <= ls.len(),
        forall|j: int| 0 <= j < insert_position(ls, l) ==> !key_le(l, #[trigger] ls[j]),
        insert_position(ls, l) < ls.len() ==> key_le(l, ls[insert_position(ls, l) as int]),
    decreases ls.len(),
{
    if ls.len() > 0 && !key_le(l, ls[0]) {
        lemma_insert_position_props(ls.drop_first(), l);
        let p = insert_position(ls, l);
        assert forall|j: int| 0 <= j < p implies !key_le(l, #[trigger] ls[j]) by {
            if j > 0 {
                assert(ls.drop_first()[j - 1] == ls[j]);
            }
        }
        if p < ls.len() {
            assert(ls.drop_first()[p - 1] == ls[p as int]);
        }
    }
}

pub proof fn lemma_insert_position_is(ls: Seq<Seq<char>>, l: Seq<char>, p: int)
    requires
        0 <= p <= ls.len(),
        forall|j: int| 0 <= j < p ==> !key_le(l, #[trigger] ls[j]),
        p < ls.len() ==> key_le(l, ls[p]),
    ensures
        insert_position(ls, l) == p,
    decreases p,
{
    if p == 0 {
    } else {
        assert(!key_le(l, ls[0]));
        assert forall|j: int| 0 <= j < p - 1 implies !key_le(l, #[trigger] ls.drop_first()[j]) by {
            assert(ls.drop_first()[j] == ls[j + 1]);
        }
        if p - 1 < ls.drop_first().len() {
            assert(ls.drop_first()[p - 1] == ls[p]);
        }
        lemma_insert_position_is(ls.drop_first(), l, p - 1);
    }
}

/// Inserting at the computed position keeps a sorted block sorted.
pub proof fn lemma_sorted_insert(ls: Seq<Seq<char>>, l: Seq<char>)
    requires
        sorted_lines(ls),
    ensures
        sorted_lines(ls.insert(insert_position(ls, l) as int, l)),
{
    lemma_insert_position_props(ls, l);
    let p = insert_position(ls, l) as int;
    let ns = ls.insert(p, l);
    assert forall|i: int, j: int|
        0 <= i < j < ns.len() implies key_le(#[trigger] ns[i], #[trigger] ns[j]) by {
        if i < p && j < p {
            assert(ns[i] == ls[i] && ns[j] == ls[j]);
        } else if i < p && j == p {
            assert(ns[i] == ls[i]);
            lemma_key_le_total(l, ls[i]);
        } else if i < p && j > p {
            assert(ns[i] == ls[i] && ns[j] == ls[j - 1]);
        } else if i == p && j > p {
            assert(ns[j] == ls[j - 1]);
            if p < ls.len() {
                assert(key_le(l, ls[p]));
                if j - 1 > p {
                    assert(key_le(ls[p], ls[j - 1]));
                    lemma_key_le_trans(l, ls[p], ls[j - 1]);
                }
            }
        } else {
            assert(i > p && j > p);
            assert(ns[i] == ls[i - 1] && ns[j] == ls[j - 1]);
        }
    }
}

/// The first interior index whose line equals `l`, or the interior length.
pub open spec fn find_line(ls: Seq<Seq<char>>, l: Seq<char>) -> nat
    decreases ls.len(),
{
    if ls.len() == 0 {
        0
    } else if ls[0] == l {
        0
    } else {
        1 + find_line(ls.drop_first(), l)
    }
}

pub proof fn lemma_find_line_is(ls: Seq<Seq<char>>, l: Seq<char>, p: int)
    requires
        0 <= p <= ls.len(),
        forall|j: int| 0 <= j < p ==> (#[trigger] ls[j]) != l,
        p < ls.len() ==> ls[p] == l,
    ensures
        find_line(ls, l) == p,
    decreases p,
{
    if p == 0 {
    } else {
        assert(ls[0] != l);
        assert forall|j: int| 0 <= j < p - 1 implies (#[trigger] ls.drop_first()[j]) != l by {
            assert(ls.drop_first()[j] == ls[j + 1]);
        }
        if p - 1 < ls.drop_first().len() {
            assert(ls.drop_first()[p - 1] == ls[p]);
        }
        lemma_find_line_is(ls.drop_first(), l, p - 1);
    }
}

/// The lines of the index after inserting `l` into the interior in sorted
/// position; header and footer stay in place.
pub open spec fn insert_lines(ls: Seq<Seq<char>>, l: Seq<char>) -> Seq<Seq<char>> {
    let inner = interior(ls);
    seq![ls[0]] + inner.insert(insert_position(inner, l) as int, l) + seq![ls.last()]
}

/// The lines of the index after removing the first interior line equal to
/// `l`; header and footer stay in place.
pub open spec fn remove_lines(ls: Seq<Seq<char>>, l: Seq<char>) -> Seq<Seq<char>> {
    ls.remove(1 + find_line(interior(ls), l) as int)
}

/// The index text after inserting an entry line, for a file whose interior is
/// already sorted.
pub open spec fn insert_entry_spec(text: Seq<char>, l: Seq<char>) -> Seq<char> {
    join_lines(insert_lines(text_lines(text), l)) + if ends_with_newline(text) {
        seq!['\n']
    } else {
        Seq::<char>::empty()
    }
}

/// The index text after removing an entry line.
pub open spec fn remove_entry_spec(text: Seq<char>, l: Seq<char>) -> Seq<char> {
    join_lines(remove_lines(text_lines(text), l)) + if ends_with_newline(text) {
        seq!['\n']
    } else {
        Seq::<char>::empty()
    }
}

/// Decides whether a line contains a newline character.
fn contains_newline(s: &str) -> (r: bool)
    ensures
        r == s@.contains('\n'),
{
    let len = s.unicode_len();
    let mut i: usize = 0;
    while i < len
        invariant
            len == s@.len(),
            0 <= i <= len,
            forall|j: int| 0 <= j < i ==> s@[j] != '\n',
        decreases len - i,
    {
        if s.get_char(i) == '\n' {
            return true;
        }
        i = i + 1;
    }
    false
}

/// Splits an index text into its lines and remembers whether the text ended
/// with a newline.
pub fn split_text(s: &str) -> (r: (Vec<String>, bool))
    ensures
        r.0.deep_view() == text_lines(s@),
        r.1 == ends_with_newline(s@),
        forall|i: int| 0 <= i < r.0.deep_view().len() ==> !(#[trigger] r.0.deep_view()[i]).contains(
            '\n',
        ),
{
    let len = s.unicode_len();
    let trailing = len > 0 && s.get_char(len - 1) == '\n';
    let core: usize = if trailing {
        len - 1
    } else {
        len
    };
    let ghost stripped = strip_trailing_newline(s@);
    proof {
        assert(stripped =~= s@.subrange(0, core as int));
        assert(stripped.subrange(0, core as int) =~= stripped);
        lemma_split_lines_shape(stripped);
    }
    let mut lines: Vec<String> = Vec::new();
    proof {
        assert(lines.deep_view() =~= Seq::<Seq<char>>::empty());
        assert(lines.deep_view() + split_lines(stripped) =~= split_lines(stripped));
    }
    let mut start: usize = 0;
    let mut i: usize = 0;
    while i < core
        invariant
            core <= len,
            len == s@.len(),
            stripped == s@.subrange(0, core as int),
            0 <= start <= i <= core,
            forall|j: int| start <= j < i ==> s@[j] != '\n',
            split_lines(stripped) =~= lines.deep_view() + split_lines(
                stripped.subrange(start as int, core as int),
            ),
        decreases core - i,
    {
        if s.get_char(i) == '\n' {
            let piece = s.substring_char(start, i).to_owned();
            proof {
                let tail = stripped.subrange(start as int, core as int);
                assert forall|j: int| 0 <= j < i - start implies tail[j] != '\n' by {
                    assert(tail[j] == s@[start + j]);
                }
                assert(tail[i - start] == s@[i as int]);
                lemma_line_break_is(tail, i - start);
                assert(tail.subrange(0, i - start) =~= s@.subrange(start as int, i as int));
                assert(tail.subrange(i - start + 1, tail.len() as int) =~= stripped.subrange(
                    i as int + 1,
                    core as int,
                ));
                assert(piece@ == s@.subrange(start as int, i as int));
            }
            let ghost old_lines = lines.deep_view();
            lines.push(piece);
            proof {
                assert(lines.deep_view() =~= old_lines.push(s@.subrange(
                    start as int,
                    i as int,
                )));
                assert(split_lines(stripped) =~= lines.deep_view() + split_lines(
                    stripped.subrange(i as int + 1, core as int),
                ));
            }
            start = i + 1;
        }
        i = i + 1;
    }
    let piece = s.substring_char(start, core).to_owned();
    proof {
        let tail = stripped.subrange(start as int, core as int);
        assert forall|j: int| 0 <= j < tail.len() implies tail[j] != '\n' by {
            assert(tail[j] == s@[start + j]);
        }
        lemma_line_break_is(tail, tail.len() as int);
        assert(split_lines(tail) =~= seq![tail]);
        assert(piece@ == tail);
    }
    let ghost old_lines = lines.deep_view();
    lines.push(piece);
    proof {
        assert(lines.deep_view() =~= old_lines.push(stripped.subrange(
            start as int,
            core as int,
        )));
        assert(lines.deep_view() =~= split_lines(stripped));
    }
    (lines, trailing)
}

pub proof fn lemma_join_push(ls: Seq<Seq<char>>, l: Seq<char>)
    ensures
        join_lines(ls.push(l)) == if ls.len() == 0 {
            l
        } else {
            join_lines(ls) + seq!['\n'] + l
        },
    decreases ls.len(),
{
    if ls.len() == 0 {
        assert(ls.push(l).len() == 1);
        assert(join_lines(ls.push(l)) == ls.push(l)[0]);
    } else {
        lemma_join_push(ls.drop_first(), l);
        assert(ls.push(l).drop_first() =~= ls.drop_first().push(l));
        if ls.len() == 1 {
            assert(join_lines(ls.push(l)) == ls[0] + seq!['\n'] + l);
            assert(join_lines(ls) == ls[0]);
        } else {
            assert(join_lines(ls.push(l)) == ls[0] + seq!['\n'] + join_lines(
                ls.drop_first().push(l),
            ));
            assert(ls[0] + seq!['\n'] + (join_lines(ls.drop_first()) + seq!['\n'] + l) =~= (ls[0]
                + seq!['\n'] + join_lines(ls.drop_first())) + seq!['\n'] + l);
        }
    }
}

/// Joins lines back into a text, restoring the trailing newline if one was
/// set aside.
pub fn join_text(lines: &Vec<String>, trailing: bool) -> (r: String)
    requires
        lines.len() >= 1,
    ensures
        r@ == join_lines(lines.deep_view()) + if trailing {
            seq!['\n']
        } else {
            Seq::<char>::empty()
        },
{
    let mut out = String::new();
    let mut i: usize = 0;
    proof {
        reveal_strlit("\n");
    }
    while i < lines.len()
        invariant
            0 <= i <= lines.len(),
            out@ =~= join_lines(lines.deep_view().take(i as int)),
        decreases lines.len() - i,
    {
        if i > 0 {
            out.append("\n");
            proof {
                reveal_strlit("\n");
                assert("\n"@ =~= seq!['\n']);
            }
        }
        out.append(lines[i].as_str());
        proof {
            lemma_join_push(lines.deep_view().take(i as int), lines.deep_view()[i as int]);
            assert(lines.deep_view().take(i as int).push(lines.deep_view()[i as int])
                =~= lines.deep_view().take(i as int + 1));
        }
        i = i + 1;
    }
    proof {
        assert(lines.deep_view().take(lines.len() as int) =~= lines.deep_view());
    }
    if trailing {
        out.append("\n");
        proof {
            reveal_strlit("\n");
            assert("\n"@ =~= seq!['\n']);
        }
    }
    out
}

proof fn lemma_span_sorted(ls: Seq<Seq<char>>, i: int, j: int)
    requires
        forall|k: int| 0 <= k < ls.len() - 1 ==> key_le(#[trigger] ls[k], ls[k + 1]),
        0 <= i <= j < ls.len(),
    ensures
        key_le(ls[i], ls[j]),
    decreases j - i,
{
    crate::order::lemma_key_le_total(ls[i], ls[i]);
    if i < j {
        lemma_span_sorted(ls, i + 1, j);
        lemma_key_le_trans(ls[i], ls[i + 1], ls[j]);
    }
}

/// Decides whether a block of lines is sorted by the case-insensitive order.
fn lines_sorted(lines: &Vec<String>) -> (r: bool)
    ensures
        r == sorted_lines(lines.deep_view()),
{
    let n = lines.len();
    if n == 0 {
        return true;
    }
    let mut i: usize = 1;
    while i < n
        invariant
            1 <= i <= n,
            n == lines.len(),
            forall|k: int| 0 <= k < i - 1 ==> key_le(
                #[trigger] lines.deep_view()[k],
                lines.deep_view()[k + 1],
            ),
        decreases n - i,
    {
        if !line_le(lines[i - 1].as_str(), lines[i].as_str()) {
            proof {
                lemma_key_le_total(lines.deep_view()[i - 1], lines.deep_view()[i as int]);
            }
            return false;
        }
        i = i + 1;
    }
    proof {
        assert forall|a: int, b: int|
            0 <= a < b < lines.deep_view().len() implies key_le(
            #[trigger] lines.deep_view()[a],
            #[trigger] lines.deep_view()[b],
        ) by {
            lemma_span_sorted(lines.deep_view(), a, b);
        }
    }
    true
}

/// Finds the sorted insertion position for a new line.
fn find_position(lines: &Vec<String>, line: &str) -> (p: usize)
    ensures
        p == insert_position(lines.deep_view(), line@),
{
    let n = lines.len();
    let mut i: usize = 0;
    while i < n
        invariant
            0 <= i <= n,
            n == lines.len(),
            forall|j: int| 0 <= j < i ==> !key_le(line@, #[trigger] lines.deep_view()[j]),
        decreases n - i,
    {
        if line_le(line, lines[i].as_str()) {
            proof {
                lemma_insert_position_is(lines.deep_view(), line@, i as int);
            }
            return i;
        }
        i = i + 1;
    }
    proof {
        lemma_insert_position_is(lines.deep_view(), line@, n as int);
    }
    n
}

fn find_position_before(lines: &Vec<String>, i: usize) -> (p: usize)
    requires
        i < lines.len(),
    ensures
        p == insert_position(lines.deep_view().take(i as int), lines.deep_view()[i as int]),
        p <= i,
{
    let ghost x = lines.deep_view()[i as int];
    let mut p: usize = 0;
    while p < i
        invariant
            0 <= p <= i < lines.len(),
            x == lines.deep_view()[i as int],
            forall|j: int| 0 <= j < p ==> !key_le(x, #[trigger] lines.deep_view()[j]),
        decreases i - p,
    {
        if line_le(lines[i].as_str(), lines[p].as_str()) {
            proof {
                lemma_insert_position_is(lines.deep_view().take(i as int), x, p as int);
            }
            return p;
        }
        p = p + 1;
    }
    proof {
        lemma_insert_position_is(lines.deep_view().take(i as int), x, i as int);
    }
    i
}

/// Sorts a block of lines by the case-insensitive order, keeping the same
/// collection of lines.
fn sort_lines(lines: &mut Vec<String>)
    ensures
        sorted_lines(final(lines).deep_view()),
        final(lines).deep_view().to_multiset() == old(lines).deep_view().to_multiset(),
        final(lines).len() == old(lines).len(),
{
    let n = lines.len();
    let mut i: usize = 1;
    if n == 0 {
        return ;
    }
    while i < n
        invariant
            1 <= i <= n,
            n == lines.len(),
            sorted_lines(lines.deep_view().take(i as int)),
            lines.deep_view().to_multiset() == old(lines).deep_view().to_multiset(),
        decreases n - i,
    {
        let p = find_position_before(lines, i);
        let ghost pre = lines.deep_view();
        let ghost x = pre[i as int];
        proof {
            lemma_sorted_insert(pre.take(i as int), x);
        }
        let moved = lines.remove(i);
        lines.insert(p, moved);
        proof {
            let mid = pre.remove(i as int);
            let post = lines.deep_view();
            assert(mid =~= pre.subrange(0, i as int) + pre.subrange(i as int + 1, pre.len() as int));
            assert(mid.take(i as int) =~= pre.take(i as int));
            assert(post =~= mid.insert(p as int, x));
            assert(post.take(i as int + 1) =~= pre.take(i as int).insert(
                insert_position(pre.take(i as int), x) as int,
                x,
            ));
            vstd::seq_lib::to_multiset_remove(pre, i as int);
            vstd::seq_lib::to_multiset_insert(mid, p as int, x);
            pre.to_multiset_ensures();
            assert(pre.to_multiset().contains(x));
            assert(post.to_multiset() =~= pre.to_multiset());
        }
        i = i + 1;
    }
    proof {
        assert(lines.deep_view().take(n as int) =~= lines.deep_view());
    }
}

/// Inserts one entry line into the index text. The header and footer lines
/// are preserved, and the interior block comes out sorted case-insensitively
/// with the new line included; when the interior was already sorted the
/// result is exactly `insert_entry_spec`. Returns `None` when the text lacks
/// a header-and-footer frame or the line contains a newline.
pub fn insert_entry(text: &str, line: &str) -> (r: Option<String>)
    ensures
        match r {
            Option::Some(out) => {
                &&& wf_index(text@)
                &&& !line@.contains('\n')
                &&& ends_with_newline(out@) == ends_with_newline(text@)
                &&& text_lines(out@).len() == text_lines(text@).len() + 1
                &&& text_lines(out@)[0] == text_lines(text@)[0]
                &&& text_lines(out@).last() == text_lines(text@).last()
                &&& sorted_lines(interior(text_lines(out@)))
                &&& interior(text_lines(out@)).to_multiset() == interior(
                    text_lines(text@),
                ).to_multiset().insert(line@)
                &&& (sorted_lines(interior(text_lines(text@))) ==> out@ == insert_entry_spec(
                    text@,
                    line@,
                ))
            },
            Option::None => !(wf_index(text@) && !line@.contains('\n')),
        },
{
    if contains_newline(line) {
        return None;
    }
    let (lines, trailing) = split_text(text);
    let n = lines.len();
    let ghost ls = text_lines(text@);
    if n < 2 {
        return None;
    }
    if lines[n - 1].as_str().is_empty() {
        return None;
    }
    let ghost inner0 = interior(ls);
    let mut inner: Vec<String> = Vec::new();
    let mut i: usize = 1;
    while i < n - 1
        invariant
            1 <= i <= n - 1,
            2 <= n == lines.len(),
            lines.deep_view() == ls,
            inner.deep_view() =~= ls.subrange(1, i as int),
        decreases n - 1 - i,
    {
        let ghost pre = inner.deep_view();
        inner.push(lines[i].clone());
        proof {
            assert(inner.deep_view() =~= pre.push(ls[i as int]));
            assert(pre.push(ls[i as int]) =~= ls.subrange(1, i as int + 1));
        }
        i = i + 1;
    }
    proof {
        assert(inner.deep_view() =~= inner0);
    }
    let was_sorted = lines_sorted(&inner);
    if was_sorted {
        let p = find_position(&inner, line);
        proof {
            lemma_insert_position_props(inner0, line@);
            lemma_sorted_insert(inner0, line@);
        }
        let ghost pre = inner.deep_view();
        inner.insert(p, line.to_owned());
        proof {
            assert(inner.deep_view() =~= inner0.insert(
                insert_position(inner0, line@) as int,
                line@,
            ));
            vstd::seq_lib::to_multiset_insert(inner0, insert_position(inner0, line@) as int, line@);
        }
    } else {
        inner.insert(0, line.to_owned());
        proof {
            assert(inner.deep_view() =~= inner0.insert(0, line@));
            vstd::seq_lib::to_multiset_insert(inner0, 0, line@);
        }
        sort_lines(&mut inner);
    }
    let ghost innerv = inner.deep_view();
    proof {
        assert(innerv.to_multiset() == inner0.to_multiset().insert(line@));
        assert(sorted_lines(innerv));
        assert forall|k: int| 0 <= k < innerv.len() implies !(#[trigger] innerv[k]).contains(
            '\n',
        ) by {
            let e = innerv[k];
            assert(innerv.contains(e));
            vstd::seq_lib::to_multiset_contains(innerv, e);
            vstd::seq_lib::to_multiset_contains(inner0.insert(0, line@), e);
            vstd::seq_lib::to_multiset_insert(inner0, 0, line@);
            assert(inner0.insert(0, line@).contains(e));
            let w = choose|w: int| 0 <= w < inner0.insert(0, line@).len() && inner0.insert(
                0,
                line@,
            )[w] == e;
            if w > 0 {
                assert(inner0[w - 1] == e);
                assert(ls[w] == e);
            }
        }
    }
    let mut out_lines: Vec<String> = Vec::new();
    out_lines.push(lines[0].clone());
    let mut i: usize = 0;
    while i < inner.len()
        invariant
            0 <= i <= inner.len(),
            innerv == inner.deep_view(),
            lines.deep_view() == ls,
            2 <= n == lines.len(),
            out_lines.deep_view() =~= seq![ls[0]] + innerv.take(i as int),
        decreases inner.len() - i,
    {
        let ghost pre = out_lines.deep_view();
        out_lines.push(inner[i].clone());
        proof {
            assert(out_lines.deep_view() =~= pre.push(innerv[i as int]));
            assert(pre.push(innerv[i as int]) =~= seq![ls[0]] + innerv.take(i as int + 1));
        }
        i = i + 1;
    }
    let ghost pre = out_lines.deep_view();
    out_lines.push(lines[n - 1].clone());
    let ghost outv = out_lines.deep_view();
    proof {
        assert(innerv.take(innerv.len() as int) =~= innerv);
        assert(outv =~= pre.push(ls.last()));
        assert(outv =~= seq![ls[0]] + innerv + seq![ls.last()]);
        assert forall|k: int| 0 <= k < outv.len() implies !(#[trigger] outv[k]).contains('\n') by {
            if k == 0 {
                assert(outv[k] == ls[0]);
            } else if k == outv.len() - 1 {
                assert(outv[k] == ls.last());
                assert(ls.last() == ls[ls.len() - 1]);
            } else {
                assert(outv[k] == innerv[k - 1]);
            }
        }
        assert(ls.last() == ls[ls.len() - 1]);
        lemma_split_join(outv);
        lemma_join_last(outv);
        assert(outv.last() == ls.last());
        assert(!ls.last().contains('\n'));
        assert forall|c: char| ls.last().contains(c) implies c != '\n' by {}
        assert(ls.last().contains(ls.last().last()));
        assert(join_lines(outv).last() != '\n');
    }
    let out = join_text(&out_lines, trailing);
    proof {
        if trailing {
            assert(out@.last() == '\n');
            assert(ends_with_newline(out@));
            assert(strip_trailing_newline(out@) =~= join_lines(outv));
        } else {
            assert(out@ =~= join_lines(outv));
            assert(!ends_with_newline(out@));
            assert(strip_trailing_newline(out@) =~= join_lines(outv));
        }
        assert(text_lines(out@) == outv);
        assert(interior(text_lines(out@)) =~= innerv);
        assert(text_lines(out@).last() == ls.last());
        assert(text_lines(out@)[0] == ls[0]);
        if sorted_lines(inner0) {
            assert(outv == insert_lines(ls, line@));
            assert(out@ =~= insert_entry_spec(text@, line@));
        }
    }
    Some(out)
}

/// Removes the first interior line equal to `line` from the index text,
/// preserving the header and footer. Returns `None` when the text lacks a
/// header-and-footer frame or no interior line matches.
pub fn remove_entry(text: &str, line: &str) -> (r: Option<String>)
    ensures
        match r {
            Option::Some(out) => {
                &&& wf_index(text@)
                &&& interior(text_lines(text@)).contains(line@)
                &&& ends_with_newline(out@) == ends_with_newline(text@)
                &&& out@ == remove_entry_spec(text@, line@)
            },
            Option::None => !(wf_index(text@) && interior(text_lines(text@)).contains(line@)),
        },
{
    let (lines, trailing) = split_text(text);
    let n = lines.len();
    let ghost ls = text_lines(text@);
    if n < 2 {
        return None;
    }
    if lines[n - 1].as_str().is_empty() {
        return None;
    }
    proof {
        assert(lines.deep_view()[n - 1] == lines@[n - 1 as int]@);
        assert(ls.last().len() > 0);
    }
    let needle = line.to_owned();
    let mut j: usize = 1;
    while j < n - 1
        invariant
            1 <= j <= n - 1,
            2 <= n == lines.len(),
            lines.deep_view() == ls,
            ls == text_lines(text@),
            wf_index(text@),
            trailing == ends_with_newline(text@),
            forall|k: int| 0 <= k < ls.len() ==> !(#[trigger] ls[k]).contains('\n'),
            needle@ == line@,
            forall|k: int| 1 <= k < j ==> (#[trigger] ls[k]) != line@,
        decreases n - 1 - j,
    {
        if needle.eq(&lines[j]) {
            let ghost lv = lines@;
            proof {
                assert(ls[j as int] == line@);
                assert forall|k: int| 0 <= k < j - 1 implies (#[trigger] interior(ls)[k])
                    != line@ by {
                    assert(ls.subrange(1, ls.len() - 1)[k] == ls[k + 1]);
                }
                assert(ls.subrange(1, ls.len() - 1)[j - 1] == ls[j as int]);
                lemma_find_line_is(interior(ls), line@, j - 1);
                assert(interior(ls).contains(line@)) by {
                    assert(ls.subrange(1, ls.len() - 1)[j - 1] == line@);
                }
                assert forall|k: int| 0 <= k < lv.len() implies ls[k] == (#[trigger] lv[k])@ by {
                    assert(lines.deep_view()[k] == lv[k].deep_view());
                }
            }
            let mut rest = lines;
            rest.remove(j);
            let ghost rls = ls.remove(j as int);
            proof {
                assert(rest@ == lv.remove(j as int));
                assert(rls.len() == ls.len() - 1);
                assert forall|k: int| 0 <= k < rest.deep_view().len() implies rest.deep_view()[k]
                    == rls[k] by {
                    assert(rest.deep_view()[k] == rest@[k].deep_view());
                    if k < j {
                        assert(lv.remove(j as int)[k] == lv[k]);
                        assert(ls.remove(j as int)[k] == ls[k]);
                    } else {
                        assert(lv.remove(j as int)[k] == lv[k + 1]);
                        assert(ls.remove(j as int)[k] == ls[k + 1]);
                    }
                }
                assert(rest.deep_view() =~= rls);
                assert(rls == remove_lines(ls, line@));
                assert(ls.remove(j as int)[0] == ls[0]);
                assert(ls.remove(j as int)[rls.len() - 1] == ls[ls.len() - 1]);
                assert(rls.last() == ls.last());
                assert forall|k: int| 0 <= k < rls.len() implies !(#[trigger] rls[k]).contains(
                    '\n',
                ) by {
                    if k < j {
                        assert(ls.remove(j as int)[k] == ls[k]);
                    } else {
                        assert(ls.remove(j as int)[k] == ls[k + 1]);
                    }
                }
                lemma_split_join(rls);
                lemma_join_last(rls);
                assert(ls.last() == ls[ls.len() - 1]);
                assert(!ls.last().contains('\n'));
                assert(ls.last().contains(ls.last().last()));
                assert(join_lines(rls).last() != '\n');
            }
            let out = join_text(&rest, trailing);
            proof {
                if trailing {
                    assert(out@.last() == '\n');
                    assert(strip_trailing_newline(out@) =~= join_lines(rls));
                } else {
                    assert(out@ =~= join_lines(rls));
                    assert(strip_trailing_newline(out@) =~= join_lines(rls));
                }
                assert(out@ =~= remove_entry_spec(text@, line@));
            }
            return Some(out);
        }
        j = j + 1;
    }
    proof {
        if interior(ls).contains(line@) {
            let w = choose|w: int|
                0 <= w < interior(ls).len() && interior(ls)[w] == line@;
            assert(ls.subrange(1, ls.len() - 1)[w] == ls[w + 1]);
            assert(ls[w + 1] == line@);
        }
    }
    None
}

/// Shape of the line sequence after a sorted insertion: the frame is kept,
/// the interior gains exactly the new line, and sortedness is preserved.
pub proof fn lemma_insert_lines_props(ls: Seq<Seq<char>>, l: Seq<char>)
    requires
        ls.len() >= 2,
    ensures
        insert_lines(ls, l).len() == ls.len() + 1,
        insert_lines(ls, l)[0] == ls[0],
        insert_lines(ls, l).last() == ls.last(),
        interior(insert_lines(ls, l)) == interior(ls).insert(
            insert_position(interior(ls), l) as int,
            l,
        ),
        interior(insert_lines(ls, l)).to_multiset() == interior(ls).to_multiset().insert(l),
        sorted_lines(interior(ls)) ==> sorted_lines(interior(insert_lines(ls, l))),
{
    let inner = interior(ls);
    lemma_insert_position_props(inner, l);
    let p = insert_position(inner, l) as int;
    let ins = inner.insert(p, l);
    let nls = insert_lines(ls, l);
    assert(nls == seq![ls[0]] + ins + seq![ls.last()]);
    assert(nls.len() == ls.len() + 1);
    assert((seq![ls[0]] + ins + seq![ls.last()])[0] == ls[0]);
    assert((seq![ls[0]] + ins + seq![ls.last()])[nls.len() - 1] == ls.last());
    assert forall|k: int| 0 <= k < ins.len() implies #[trigger] interior(nls)[k] == ins[k] by {
        assert(nls.subrange(1, nls.len() - 1)[k] == nls[k + 1]);
        assert((seq![ls[0]] + ins + seq![ls.last()])[k + 1] == ins[k]);
    }
    assert(interior(nls) =~= ins);
    vstd::seq_lib::to_multiset_insert(inner, p, l);
    if sorted_lines(inner) {
        lemma_sorted_insert(inner, l);
    }
}

/// Inserting an entry into a well-formed index gives a well-formed index
/// whose lines are exactly the sorted insertion, with the trailing newline
/// preserved.
pub proof fn lemma_insert_entry_spec_lines(text: Seq<char>, l: Seq<char>)
    requires
        wf_index(text),
        !l.contains('\n'),
    ensures
        text_lines(insert_entry_spec(text, l)) == insert_lines(text_lines(text), l),
        ends_with_newline(insert_entry_spec(text, l)) == ends_with_newline(text),
        wf_index(insert_entry_spec(text, l)),
{
    let stripped = strip_trailing_newline(text);
    let ls = text_lines(text);
    lemma_split_lines_shape(stripped);
    let inner = interior(ls);
    lemma_insert_position_props(inner, l);
    let p = insert_position(inner, l) as int;
    let ins = inner.insert(p, l);
    let nls = insert_lines(ls, l);
    lemma_insert_lines_props(ls, l);
    assert(nls == seq![ls[0]] + ins + seq![ls.last()]);
    assert forall|k: int| 0 <= k < nls.len() implies !(#[trigger] nls[k]).contains('\n') by {
        if k == 0 {
            assert((seq![ls[0]] + ins + seq![ls.last()])[0] == ls[0]);
        } else if k == nls.len() - 1 {
            assert((seq![ls[0]] + ins + seq![ls.last()])[k] == ls.last());
            assert(ls.last() == ls[ls.len() - 1]);
        } else {
            assert((seq![ls[0]] + ins + seq![ls.last()])[k] == ins[k - 1]);
            if k - 1 < p {
                assert(inner.insert(p, l)[k - 1] == inner[k - 1]);
                assert(ls.subrange(1, ls.len() - 1)[k - 1] == ls[k]);
            } else if k - 1 == p {
                assert(inner.insert(p, l)[p] == l);
            } else {
                assert(inner.insert(p, l)[k - 1] == inner[k - 2]);
                assert(ls.subrange(1, ls.len() - 1)[k - 2] == ls[k - 1]);
            }
        }
    }
    lemma_split_join(nls);
    lemma_join_last(nls);
    assert(ls.last() == ls[ls.len() - 1]);
    assert(!ls.last().contains('\n'));
    assert(ls.last().contains(ls.last().last()));
    assert(join_lines(nls).last() != '\n');
    let out = insert_entry_spec(text, l);
    if ends_with_newline(text) {
        assert(out.last() == '\n');
        assert(strip_trailing_newline(out) =~= join_lines(nls));
    } else {
        assert(out =~= join_lines(nls));
        assert(strip_trailing_newline(out) =~= join_lines(nls));
    }
    assert(text_lines(out) == nls);
    assert(nls.last().len() > 0);
}

/// After inserting a line into a sorted index and removing it again by
/// content, the line sequence is unchanged.
pub proof fn lemma_insert_remove_lines(ls: Seq<Seq<char>>, l: Seq<char>)
    requires
        ls.len() >= 2,
        sorted_lines(interior(ls)),
    ensures
        remove_lines(insert_lines(ls, l), l) == ls,
{
    let inner = interior(ls);
    lemma_insert_position_props(inner, l);
    let p = insert_position(inner, l) as int;
    let ins = inner.insert(p, l);
    let nls = insert_lines(ls, l);
    assert(nls == seq![ls[0]] + ins + seq![ls.last()]);
    assert(nls.len() == ls.len() + 1);
    assert forall|k: int| 0 <= k < ins.len() implies #[trigger] interior(nls)[k] == ins[k] by {
        assert(nls.subrange(1, nls.len() - 1)[k] == nls[k + 1]);
        assert((seq![ls[0]] + ins + seq![ls.last()])[k + 1] == ins[k]);
    }
    assert(interior(nls) =~= ins);
    assert forall|q: int| 0 <= q < p implies (#[trigger] ins[q]) != l by {
        assert(inner.insert(p, l)[q] == inner[q]);
        if inner[q] == l {
            crate::order::lemma_key_le_total(l, l);
            assert(key_le(l, inner[q]));
            assert(false);
        }
    }
    assert(inner.insert(p, l)[p] == l);
    lemma_find_line_is(ins, l, p);
    assert(find_line(interior(nls), l) == p);
    assert forall|k: int| 0 <= k < ls.len() implies #[trigger] nls.remove(1 + p)[k] == ls[k] by {
        if k < 1 + p {
            assert(nls.remove(1 + p)[k] == nls[k]);
            if k == 0 {
                assert((seq![ls[0]] + ins + seq![ls.last()])[0] == ls[0]);
            } else {
                assert((seq![ls[0]] + ins + seq![ls.last()])[k] == ins[k - 1]);
                assert(inner.insert(p, l)[k - 1] == inner[k - 1]);
                assert(ls.subrange(1, ls.len() - 1)[k - 1] == ls[k]);
            }
        } else {
            assert(nls.remove(1 + p)[k] == nls[k + 1]);
            if k == ls.len() - 1 {
                assert((seq![ls[0]] + ins + seq![ls.last()])[k + 1] == ls.last());
                assert(ls.last() == ls[ls.len() - 1]);
            } else {
                assert((seq![ls[0]] + ins + seq![ls.last()])[k + 1] == ins[k]);
                assert(inner.insert(p, l)[k] == inner[k - 1]);
                assert(ls.subrange(1, ls.len() - 1)[k - 1] == ls[k]);
            }
        }
    }
    assert(nls.remove(1 + p) =~= ls);
    assert(remove_lines(nls, l) == nls.remove(1 + p));
}

/// Round trip at the level of the file text: inserting an entry line into a
/// well-formed, sorted index and then removing it by line content restores
/// the original text exactly, trailing newline included.
pub proof fn lemma_insert_remove_round_trip(text: Seq<char>, l: Seq<char>)
    requires
        wf_index(text),
        sorted_lines(interior(text_lines(text))),
        !l.contains('\n'),
    ensures
        remove_entry_spec(insert_entry_spec(text, l), l) == text,
{
    let stripped = strip_trailing_newline(text);
    let ls = text_lines(text);
    lemma_split_lines_shape(stripped);
    let inner = interior(ls);
    lemma_insert_position_props(inner, l);
    let p = insert_position(inner, l) as int;
    let ins = inner.insert(p, l);
    let nls = insert_lines(ls, l);
    assert(nls == seq![ls[0]] + ins + seq![ls.last()]);
    assert(nls.len() == ls.len() + 1);
    assert((seq![ls[0]] + ins + seq![ls.last()])[0] == ls[0]);
    assert((seq![ls[0]] + ins + seq![ls.last()])[nls.len() - 1] == ls.last());
    assert(nls[0] == ls[0]);
    assert(nls.last() == ls.last());
    assert forall|k: int| 0 <= k < nls.len() implies !(#[trigger] nls[k]).contains('\n') by {
        if k == 0 {
            assert((seq![ls[0]] + ins + seq![ls.last()])[0] == ls[0]);
        } else if k == nls.len() - 1 {
            assert((seq![ls[0]] + ins + seq![ls.last()])[k] == ls.last());
            assert(ls.last() == ls[ls.len() - 1]);
        } else {
            assert((seq![ls[0]] + ins + seq![ls.last()])[k] == ins[k - 1]);
            if k - 1 < p {
                assert(inner.insert(p, l)[k - 1] == inner[k - 1]);
                assert(ls.subrange(1, ls.len() - 1)[k - 1] == ls[k]);
            } else if k - 1 == p {
                assert(inner.insert(p, l)[p] == l);
            } else {
                assert(inner.insert(p, l)[k - 1] == inner[k - 2]);
                assert(ls.subrange(1, ls.len() - 1)[k - 2] == ls[k - 1]);
            }
        }
    }
    lemma_split_join(nls);
    lemma_join_last(nls);
    assert(ls.last() == ls[ls.len() - 1]);
    assert(!ls.last().contains('\n'));
    assert(ls.last().contains(ls.last().last()));
    assert(join_lines(nls).last() != '\n');
    let out = insert_entry_spec(text, l);
    if ends_with_newline(text) {
        assert(out.last() == '\n');
        assert(strip_trailing_newline(out) =~= join_lines(nls));
    } else {
        assert(out =~= join_lines(nls));
        assert(strip_trailing_newline(out) =~= join_lines(nls));
    }
    assert(text_lines(out) == nls);
    assert(ends_with_newline(out) == ends_with_newline(text));
    lemma_insert_remove_lines(ls, l);
    assert(remove_lines(text_lines(out), l) == ls);
    lemma_join_split(stripped);
    assert(join_lines(ls) == stripped);
    if ends_with_newline(text) {
        assert(remove_entry_spec(out, l) =~= stripped + seq!['\n']);
        assert(stripped + seq!['\n'] =~= text);
    } else {
        assert(remove_entry_spec(out, l) =~= text);
    }
}

} // verus!
