use vstd::prelude::*;

use crate::lines::{lines_of, split_lines, terminated};
use crate::search::{contains_chars, has_sub};

verus! {

/// The terminator written after each line of a cleaned hosts file.
#[derive(Clone, Copy, Debug, PartialEq, Eq, Structural)]
pub enum LineEnding {
    Lf,
    CrLf,
}

impl LineEnding {
    pub open spec fn spec_chars(self) -> Seq<char> {
        match self {
            LineEnding::Lf => seq!['\n'],
            LineEnding::CrLf => seq!['\r', '\n'],
        }
    }

    /// The characters of the terminator.
    pub fn chars(&self) -> (r: Vec<char>)
        ensures
            r@ == self.spec_chars(),
    {
        match self {
            LineEnding::Lf => vec!['\n'],
            LineEnding::CrLf => vec!['\r', '\n'],
        }
    }
}

/// The lines of `ls` that hold `target`, in their order.
pub open spec fn matching(ls: Seq<Seq<char>>, target: Seq<char>) -> Seq<Seq<char>> {
    ls.filter(|l: Seq<char>| has_sub(l, target))
}

/// The lines of `ls` that do not hold `target`, in their order.
pub open spec fn kept(ls: Seq<Seq<char>>, target: Seq<char>) -> Seq<Seq<char>> {
    ls.filter(|l: Seq<char>| !has_sub(l, target))
}

/// What cleaning `text` of the lines that hold `target` writes back.
pub open spec fn cleaned(text: Seq<char>, target: Seq<char>, eol: Seq<char>) -> Seq<char> {
    terminated(kept(lines_of(text), target), eol)
}

/// The characters of `s`, in order.
fn chars_of(s: &str) -> (r: Vec<char>)
    ensures
        r@ == s@,
{
    let mut out: Vec<char> = Vec::new();
    for c in iter: s.chars()
        invariant
            out@ == iter.history(),
    {
        out.push(c);
    }
    proof {
        broadcast use vstd::string::axiom_spec_iter;
    }
    out
}

/// Relies on String's FromIterator<&char>: the string of the given characters, in order.
#[verifier::external_body]
fn string_of(cs: &Vec<char>) -> (r: String)
    ensures
        r@ == cs@,
{
    cs.iter().collect()
}

/// Appends the characters of `src` to `out`.
fn push_all(out: &mut Vec<char>, src: &Vec<char>)
    ensures
        final(out)@ == old(out)@ + src@,
{
    let mut i: usize = 0;
    while i < src.len()
        invariant
            i <= src@.len(),
            out@ == old(out)@ + src@.take(i as int),
        decreases src.len() - i,
    {
        out.push(src[i]);
        i = i + 1;
        assert(out@ =~= old(out)@ + src@.take(i as int));
    }
    assert(src@.take(i as int) =~= src@);
}

/// The lines of `text` that hold `target` (case-sensitive), in their order.
pub fn scan(text: &str, target: &str) -> (r: Vec<String>)
    ensures
        r@.map_values(|l: String| l@) == matching(lines_of(text@), target@),
{
    let cs = chars_of(text);
    let pat = chars_of(target);
    let lines = split_lines(&cs);
    let ghost ls = lines_of(text@);
    let mut out: Vec<String> = Vec::new();
    let mut i: usize = 0;
    proof {
        reveal(Seq::filter);
        assert(ls.take(0) =~= Seq::<Seq<char>>::empty());
        assert(out@.map_values(|l: String| l@) =~= Seq::<Seq<char>>::empty());
    }
    while i < lines.len()
        invariant
            lines@.map_values(|l: Vec<char>| l@) == ls,
            pat@ == target@,
            i <= lines@.len(),
            out@.map_values(|l: String| l@) == matching(ls.take(i as int), target@),
        decreases lines.len() - i,
    {
        let ghost before = out@;
        proof {
            reveal(Seq::filter);
            assert(ls.take(i + 1).drop_last() =~= ls.take(i as int));
            assert(ls[i as int] == lines@[i as int]@);
        }
        if contains_chars(&lines[i], &pat) {
            let s = string_of(&lines[i]);
            out.push(s);
            assert(out@.map_values(|l: String| l@) =~= before.map_values(|l: String| l@).push(
                ls[i as int],
            ));
        }
        i = i + 1;
    }
    assert(ls.take(i as int) =~= ls);
    out
}

/// The text that cleaning `text` writes back: its lines that do not hold
/// `target`, in their order, each followed by `ending`.
pub fn clean_contents(text: &str, target: &str, ending: LineEnding) -> (r: String)
    ensures
        r@ == cleaned(text@, target@, ending.spec_chars()),
{
    let cs = chars_of(text);
    let pat = chars_of(target);
    let eol = ending.chars();
    let lines = split_lines(&cs);
    let ghost ls = lines_of(text@);
    let mut out: Vec<char> = Vec::new();
    let mut i: usize = 0;
    proof {
        reveal(Seq::filter);
        assert(ls.take(0) =~= Seq::<Seq<char>>::empty());
    }
    while i < lines.len()
        invariant
            lines@.map_values(|l: Vec<char>| l@) == ls,
            pat@ == target@,
            eol@ == ending.spec_chars(),
            i <= lines@.len(),
            out@ == terminated(kept(ls.take(i as int), target@), eol@),
        decreases lines.len() - i,
    {
        proof {
            reveal(Seq::filter);
            assert(ls.take(i + 1).drop_last() =~= ls.take(i as int));
            assert(ls[i as int] == lines@[i as int]@);
        }
        if !contains_chars(&lines[i], &pat) {
            proof {
                crate::lines::lemma_terminated_push(kept(ls.take(i as int), target@), ls[i as int], eol@);
            }
            push_all(&mut out, &lines[i]);
            push_all(&mut out, &eol);
        }
        i = i + 1;
    }
    assert(ls.take(i as int) =~= ls);
    string_of(&out)
}


/// No line holds the target: none matches.
pub proof fn lemma_matching_none(ls: Seq<Seq<char>>, target: Seq<char>)
    requires
        forall|i: int| 0 <= i < ls.len() ==> !has_sub(#[trigger] ls[i], target),
    ensures
        matching(ls, target) == Seq::<Seq<char>>::empty(),
        kept(ls, target) == ls,
    decreases ls.len(),
{
    reveal(Seq::filter);
    if ls.len() > 0 {
        let init = ls.drop_last();
        assert forall|i: int| 0 <= i < init.len() implies !has_sub(#[trigger] init[i], target) by {
            assert(init[i] == ls[i]);
        }
        lemma_matching_none(init, target);
        assert(!has_sub(ls[ls.len() - 1], target));
        assert(init.push(ls.last()) =~= ls);
    }
}


/// What a filter keeps is taken from the filtered sequence.
proof fn lemma_filter_within(ls: Seq<Seq<char>>, pred: spec_fn(Seq<char>) -> bool)
    ensures
        forall|i: int|
            0 <= i < ls.filter(pred).len() ==> ls.contains(#[trigger] ls.filter(pred)[i]),
    decreases ls.len(),
{
    reveal(Seq::filter);
    if ls.len() > 0 {
        let init = ls.drop_last();
        lemma_filter_within(init, pred);
        assert forall|i: int| 0 <= i < ls.filter(pred).len() implies ls.contains(
            #[trigger] ls.filter(pred)[i],
        ) by {
            if i < init.filter(pred).len() {
                assert(ls.filter(pred)[i] == init.filter(pred)[i]);
                let j = choose|j: int| 0 <= j < init.len() && init[j] == init.filter(pred)[i];
                assert(ls[j] == init[j]);
            } else {
                assert(ls.filter(pred)[i] == ls[ls.len() - 1]);
            }
        }
    }
}

/// The scan keeps exactly the lines with the target: each line it returns holds
/// the target and is a line of the text, and each line of the text that holds
/// the target is returned. The order is the text's, by the definition of
/// `matching`.
pub proof fn lemma_scan_exact(text: Seq<char>, target: Seq<char>)
    ensures
        forall|i: int|
            0 <= i < matching(lines_of(text), target).len() ==> has_sub(
                #[trigger] matching(lines_of(text), target)[i],
                target,
            ) && lines_of(text).contains(matching(lines_of(text), target)[i]),
        forall|i: int|
            0 <= i < lines_of(text).len() && has_sub(#[trigger] lines_of(text)[i], target)
                ==> matching(lines_of(text), target).contains(lines_of(text)[i]),
{
    let ls = lines_of(text);
    let pred = |l: Seq<char>| has_sub(l, target);
    assert forall|i: int| 0 <= i < matching(ls, target).len() implies has_sub(
        #[trigger] matching(ls, target)[i],
        target,
    ) && ls.contains(matching(ls, target)[i]) by {
        ls.lemma_filter_pred(pred, i);
        lemma_filter_within(ls, pred);
    }
    assert forall|i: int| 0 <= i < ls.len() && has_sub(#[trigger] ls[i], target) implies matching(
        ls,
        target,
    ).contains(ls[i]) by {
        ls.lemma_filter_contains(pred, i);
    }
}

/// Every line that cleaning keeps holds no line feed.
proof fn lemma_kept_no_lf(text: Seq<char>, target: Seq<char>)
    ensures
        forall|i: int|
            0 <= i < kept(lines_of(text), target).len() ==> crate::lines::no_lf(
                #[trigger] kept(lines_of(text), target)[i],
            ) && !has_sub(kept(lines_of(text), target)[i], target),
{
    let ls = lines_of(text);
    let pred = |l: Seq<char>| !has_sub(l, target);
    crate::lines::lemma_lines_no_lf(text);
    assert forall|i: int| 0 <= i < kept(ls, target).len() implies crate::lines::no_lf(
        #[trigger] kept(ls, target)[i],
    ) && !has_sub(kept(ls, target)[i], target) by {
        ls.lemma_filter_pred(pred, i);
        lemma_filter_within(ls, pred);
        let j = choose|j: int| 0 <= j < ls.len() && ls[j] == kept(ls, target)[i];
        assert(crate::lines::no_lf(ls[j]));
    }
}

/// The terminator `eol` comes off again when the cleaned text is read back:
/// always for CR LF, and for a bare LF where no kept line ends with a carriage return.
pub open spec fn reads_back(text: Seq<char>, target: Seq<char>, ending: LineEnding) -> bool {
    ending == LineEnding::CrLf || forall|i: int|
        0 <= i < kept(lines_of(text), target).len() ==> !crate::lines::ends_cr(
            #[trigger] kept(lines_of(text), target)[i],
        )
}

/// Cleaning removes all and only the lines with the target: read back, the
/// cleaned text has exactly the lines of the text without the target, in
/// their order, and none of its lines holds the target.
pub proof fn lemma_clean_removes_exactly(text: Seq<char>, target: Seq<char>, ending: LineEnding)
    requires
        reads_back(text, target, ending),
    ensures
        lines_of(cleaned(text, target, ending.spec_chars())) == kept(lines_of(text), target),
        forall|i: int|
            0 <= i < lines_of(cleaned(text, target, ending.spec_chars())).len() ==> !has_sub(
                #[trigger] lines_of(cleaned(text, target, ending.spec_chars()))[i],
                target,
            ),
        forall|i: int|
            0 <= i < lines_of(text).len() && !has_sub(#[trigger] lines_of(text)[i], target)
                ==> lines_of(cleaned(text, target, ending.spec_chars())).contains(
                lines_of(text)[i],
            ),
{
    let ls = lines_of(text);
    let ks = kept(ls, target);
    let eol = ending.spec_chars();
    lemma_kept_no_lf(text, target);
    assert forall|i: int| 0 <= i < ks.len() implies crate::lines::no_lf(#[trigger] ks[i])
        && crate::lines::ending_fits(ks[i], eol) by {}
    crate::lines::lemma_lines_of_terminated(ks, eol);
    let pred = |l: Seq<char>| !has_sub(l, target);
    assert forall|i: int| 0 <= i < ls.len() && !has_sub(#[trigger] ls[i], target) implies ks.contains(
        ls[i],
    ) by {
        ls.lemma_filter_contains(pred, i);
    }
}

/// Cleaning twice writes what cleaning once wrote.
pub proof fn lemma_clean_idempotent(text: Seq<char>, target: Seq<char>, ending: LineEnding)
    requires
        reads_back(text, target, ending),
    ensures
        cleaned(cleaned(text, target, ending.spec_chars()), target, ending.spec_chars())
            == cleaned(text, target, ending.spec_chars()),
{
    let ks = kept(lines_of(text), target);
    lemma_clean_removes_exactly(text, target, ending);
    lemma_kept_no_lf(text, target);
    lemma_matching_none(ks, target);
}

/// Cleaning a text with no line that holds the target keeps every line, and
/// cleaning again changes nothing; a text already written with `ending` after
/// each line comes back unchanged.
pub proof fn lemma_clean_no_match(text: Seq<char>, target: Seq<char>, ending: LineEnding)
    requires
        forall|i: int| 0 <= i < lines_of(text).len() ==> !has_sub(#[trigger] lines_of(text)[i], target),
        reads_back(text, target, ending),
    ensures
        lines_of(cleaned(text, target, ending.spec_chars())) == lines_of(text),
        cleaned(cleaned(text, target, ending.spec_chars()), target, ending.spec_chars())
            == cleaned(text, target, ending.spec_chars()),
        text == terminated(lines_of(text), ending.spec_chars()) ==> cleaned(
            text,
            target,
            ending.spec_chars(),
        ) == text,
{
    lemma_matching_none(lines_of(text), target);
    lemma_clean_removes_exactly(text, target, ending);
    lemma_clean_idempotent(text, target, ending);
}

} // verus!
