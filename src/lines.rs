use vstd::prelude::*;

verus! {

/// Number of characters before the first line feed of `s` (all of `s` when it has none).
pub open spec fn line_len(s: Seq<char>) -> nat
    decreases s.len(),
{
    if s.len() == 0 || s[0] == '\n' {
        0
    } else {
        1 + line_len(s.drop_first())
    }
}

/// A line without the one carriage return that may close it.
pub open spec fn strip_cr(l: Seq<char>) -> Seq<char> {
    if l.len() > 0 && l.last() == '\r' {
        l.drop_last()
    } else {
        l
    }
}

/// The lines of a text: the pieces between line feeds, each ended by a line
/// feed or by a carriage return and a line feed, which are not part of it. The
/// last line may lack its ending; a text that ends with a line feed has no
/// empty last line, and the empty text has no line.
pub open spec fn lines_of(s: Seq<char>) -> Seq<Seq<char>>
    decreases s.len(),
{
    if s.len() == 0 {
        seq![]
    } else {
        let n = line_len(s);
        if n < s.len() {
            seq![strip_cr(s.take(n as int))] + lines_of(s.skip(n as int + 1))
        } else {
            seq![s]
        }
    }
}

/// The first line feed of `s` stands at `k`, or there is none and `k` is its length.
pub proof fn lemma_line_len(s: Seq<char>, k: int)
    requires
        0 <= k <= s.len(),
        forall|j: int| 0 <= j < k ==> s[j] != '\n',
        k == s.len() || s[k] == '\n',
    ensures
        line_len(s) == k,
    decreases k,
{
    if k > 0 {
        lemma_line_len(s.drop_first(), k - 1);
    }
}

/// Takes a closing carriage return off a line.
fn strip_cr_exec(l: &mut Vec<char>)
    ensures
        final(l)@ == strip_cr(old(l)@),
{
    let n = l.len();
    if n > 0 && l[n - 1] == '\r' {
        l.pop();
    }
}

/// Cuts `text` into its lines.
pub fn split_lines(text: &Vec<char>) -> (r: Vec<Vec<char>>)
    ensures
        r@.map_values(|l: Vec<char>| l@) == lines_of(text@),
{
    let ghost s = text@;
    let mut out: Vec<Vec<char>> = Vec::new();
    let mut cur: Vec<char> = Vec::new();
    let mut start: usize = 0;
    let mut i: usize = 0;
    proof {
        assert(s.skip(0) =~= s);
        assert(out@.map_values(|l: Vec<char>| l@) =~= Seq::<Seq<char>>::empty());
    }
    while i < text.len()
        invariant
            s == text@,
            start <= i <= text.len(),
            cur@ == s.subrange(start as int, i as int),
            forall|j: int| start <= j < i ==> s[j] != '\n',
            out@.map_values(|l: Vec<char>| l@) + lines_of(s.skip(start as int)) == lines_of(s),
        decreases text.len() - i,
    {
        let c = text[i];
        if c == '\n' {
            let ghost rest = s.skip(start as int);
            proof {
                lemma_line_len(rest, i - start);
                assert(rest.take(i - start) =~= cur@);
                assert(rest.skip(i - start + 1) =~= s.skip(i + 1));
            }
            let ghost before = out@;
            let ghost piece = cur@;
            let mut line = cur;
            strip_cr_exec(&mut line);
            out.push(line);
            proof {
                assert(out@.map_values(|l: Vec<char>| l@) =~= before.map_values(|l: Vec<char>| l@).push(
                    strip_cr(piece),
                ));
            }
            cur = Vec::new();
            start = i + 1;
        } else {
            cur.push(c);
        }
        i = i + 1;
    }
    proof {
        let rest = s.skip(start as int);
        if start < i {
            lemma_line_len(rest, i - start);
            assert(rest.take(i - start) =~= cur@);
        } else {
            assert(rest.len() == 0);
        }
    }
    if start < i {
        let ghost before = out@;
        let ghost piece = cur@;
        out.push(cur);
        proof {
            assert(out@.map_values(|l: Vec<char>| l@) =~= before.map_values(|l: Vec<char>| l@).push(
                piece,
            ));
        }
    }
    out
}


/// Each line followed by the line terminator `eol`.
pub open spec fn terminated(ls: Seq<Seq<char>>, eol: Seq<char>) -> Seq<char>
    decreases ls.len(),
{
    if ls.len() == 0 {
        seq![]
    } else {
        ls[0] + eol + terminated(ls.drop_first(), eol)
    }
}

/// `l` holds no line feed.
pub open spec fn no_lf(l: Seq<char>) -> bool {
    forall|j: int| 0 <= j < l.len() ==> l[j] != '\n'
}

/// `l` ends with a carriage return.
pub open spec fn ends_cr(l: Seq<char>) -> bool {
    l.len() > 0 && l.last() == '\r'
}

/// Terminating one more line appends that line and its terminator.
pub proof fn lemma_terminated_push(ls: Seq<Seq<char>>, x: Seq<char>, eol: Seq<char>)
    ensures
        terminated(ls.push(x), eol) == terminated(ls, eol) + x + eol,
    decreases ls.len(),
{
    if ls.len() == 0 {
        assert(ls.push(x).drop_first() =~= Seq::<Seq<char>>::empty());
        assert(terminated(Seq::<Seq<char>>::empty(), eol) =~= Seq::<char>::empty());
        assert(terminated(ls.push(x), eol) =~= x + eol);
    } else {
        assert(ls.push(x).drop_first() =~= ls.drop_first().push(x));
        lemma_terminated_push(ls.drop_first(), x, eol);
        assert(terminated(ls.push(x), eol) =~= terminated(ls, eol) + x + eol);
    }
}

/// The first line of `s` lies within it, holds no line feed, and is followed by one
/// unless it runs to the end.
pub proof fn lemma_line_len_bound(s: Seq<char>)
    ensures
        line_len(s) <= s.len(),
        no_lf(s.take(line_len(s) as int)),
        line_len(s) < s.len() ==> s[line_len(s) as int] == '\n',
    decreases s.len(),
{
    if s.len() > 0 && s[0] != '\n' {
        lemma_line_len_bound(s.drop_first());
        assert forall|j: int| 0 <= j < line_len(s) implies s.take(line_len(s) as int)[j] != '\n' by {
            if j > 0 {
                assert(s.take(line_len(s) as int)[j] == s.drop_first().take(
                    line_len(s.drop_first()) as int,
                )[j - 1]);
            }
        }
    }
}

/// No line of a text holds a line feed.
pub proof fn lemma_lines_no_lf(s: Seq<char>)
    ensures
        forall|i: int| 0 <= i < lines_of(s).len() ==> no_lf(#[trigger] lines_of(s)[i]),
    decreases s.len(),
{
    if s.len() > 0 {
        let n = line_len(s);
        lemma_line_len_bound(s);
        if n < s.len() {
            lemma_lines_no_lf(s.skip(n as int + 1));
        }
        let first = s.take(n as int);
        assert(no_lf(strip_cr(first))) by {
            if ends_cr(first) {
                assert forall|j: int| 0 <= j < first.drop_last().len() implies first.drop_last()[j]
                    != '\n' by {
                    assert(first.drop_last()[j] == first[j]);
                }
            }
        }
        if n == s.len() {
            assert(first =~= s);
        }
        assert forall|i: int| 0 <= i < lines_of(s).len() implies no_lf(#[trigger] lines_of(s)[i]) by {
            if i > 0 {
                assert(lines_of(s)[i] == lines_of(s.skip(n as int + 1))[i - 1]);
            }
        }
    }
}

/// `l` followed by `eol` reads back as the line `l`: a CR LF is always taken
/// off whole, a bare LF only where `l` does not end with a carriage return.
pub open spec fn ending_fits(l: Seq<char>, eol: Seq<char>) -> bool {
    eol == seq!['\r', '\n'] || (eol == seq!['\n'] && !ends_cr(l))
}

/// A line with a terminator that fits it, read from the front of a text, comes
/// back as that line, and the reading goes on with the rest.
pub proof fn lemma_lines_of_line(l: Seq<char>, eol: Seq<char>, r: Seq<char>)
    requires
        no_lf(l),
        ending_fits(l, eol),
    ensures
        lines_of(l + eol + r) == seq![l] + lines_of(r),
{
    let s = l + eol + r;
    let k = eol.len() - 1 + l.len();
    assert forall|j: int| 0 <= j < k implies s[j] != '\n' by {
        if j < l.len() {
            assert(s[j] == l[j]);
        }
    }
    assert(s[k] == '\n');
    lemma_line_len(s, k);
    if eol.len() == 2 {
        assert(s.take(k) =~= l.push('\r'));
        assert(strip_cr(l.push('\r')) =~= l);
    } else {
        assert(s.take(k) =~= l);
    }
    assert(s.skip(k + 1) =~= r);
}

/// Reading back the lines of terminated lines gives the same lines.
pub proof fn lemma_lines_of_terminated(ls: Seq<Seq<char>>, eol: Seq<char>)
    requires
        forall|i: int| 0 <= i < ls.len() ==> no_lf(#[trigger] ls[i]) && ending_fits(ls[i], eol),
    ensures
        lines_of(terminated(ls, eol)) == ls,
    decreases ls.len(),
{
    if ls.len() == 0 {
        assert(lines_of(terminated(ls, eol)) =~= ls);
    } else {
        let rest = ls.drop_first();
        assert forall|i: int| 0 <= i < rest.len() implies no_lf(#[trigger] rest[i]) && ending_fits(
            rest[i],
            eol,
        ) by {
            assert(rest[i] == ls[i + 1]);
        }
        lemma_lines_of_terminated(rest, eol);
        assert(ls[0] + eol + terminated(rest, eol) == terminated(ls, eol));
        lemma_lines_of_line(ls[0], eol, terminated(rest, eol));
        assert(lines_of(terminated(ls, eol)) =~= ls);
    }
}

} // verus!
