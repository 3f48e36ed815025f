use vstd::prelude::*;

verus! {

/// Index of the first newline character in `s`, or `s.len()` when there is
/// none.
pub open spec fn first_nl(s: Seq<char>) -> nat
    decreases s.len(),
{
    if s.len() == 0 {
        0
    } else if s[0] == '\n' {
        0
    } else {
        1 + first_nl(s.drop_first())
    }
}

/// A line piece with a trailing carriage return removed: the line endings
/// "\r\n" and "\n" both end a line, and neither character belongs to it.
pub open spec fn strip_cr(l: Seq<char>) -> Seq<char> {
    if l.len() > 0 && l.last() == '\r' {
        l.drop_last()
    } else {
        l
    }
}

/// The lines of `s`, as `str::lines` yields them: the pieces separated by
/// '\n', with a trailing '\r' removed from each piece that ends before a
/// '\n', and with no empty final piece after a final newline.
pub open spec fn spec_lines(s: Seq<char>) -> Seq<Seq<char>>
    decreases s.len(),
{
    if s.len() == 0 {
        seq![]
    } else {
        let i = first_nl(s) as int;
        if i >= s.len() {
            seq![s]
        } else {
            seq![strip_cr(s.take(i))] + spec_lines(s.skip(i + 1))
        }
    }
}

/// A position with no newline before it, and a newline at it (or the end of
/// the text), is exactly `first_nl`.
pub proof fn lemma_first_nl_is(s: Seq<char>, i: int)
    requires
        0 <= i <= s.len(),
        forall|j: int| 0 <= j < i ==> s[j] != '\n',
        i < s.len() ==> s[i] == '\n',
    ensures
        first_nl(s) == i,
    decreases s.len(),
{
    if s.len() == 0 {
    } else if s[0] == '\n' {
        assert(i == 0);
    } else {
        assert(i > 0);
        assert forall|j: int| 0 <= j < i - 1 implies s.drop_first()[j] != '\n' by {
            assert(s.drop_first()[j] == s[j + 1]);
        }
        lemma_first_nl_is(s.drop_first(), i - 1);
    }
}

/// Splits `contents` into its lines, exactly as `spec_lines` describes them.
pub fn split_lines(contents: &str) -> (r: Vec<String>)
    ensures
        r.deep_view() == spec_lines(contents@),
{
    let n = contents.unicode_len();
    let mut r: Vec<String> = Vec::new();
    let mut start: usize = 0;
    let mut i: usize = 0;
    proof {
        assert(contents@.skip(0) =~= contents@);
        assert(r.deep_view() =~= Seq::<Seq<char>>::empty());
        assert(Seq::<Seq<char>>::empty() + spec_lines(contents@) =~= spec_lines(contents@));
    }
    while i < n
        invariant
            start <= i <= n,
            n == contents@.len(),
            forall|j: int| start <= j < i ==> contents@[j] != '\n',
            r.deep_view() + spec_lines(contents@.skip(start as int)) == spec_lines(contents@),
        decreases n - i,
    {
        let c = contents.get_char(i);
        if c == '\n' {
            let end = if i > start && contents.get_char(i - 1) == '\r' {
                i - 1
            } else {
                i
            };
            let piece = contents.substring_char(start, end);
            let ghost prev = r.deep_view();
            let ghost t = contents@.skip(start as int);
            proof {
                assert forall|j: int| 0 <= j < i - start implies t[j] != '\n' by {
                    assert(t[j] == contents@[start + j]);
                }
                assert(t[i - start] == contents@[i as int]);
                lemma_first_nl_is(t, i - start);
                assert(t.take(i - start) =~= contents@.subrange(start as int, i as int));
                assert(strip_cr(t.take(i - start)) =~= contents@.subrange(
                    start as int,
                    end as int,
                ));
                assert(t.skip(i - start + 1) =~= contents@.skip(i + 1));
                assert(spec_lines(t) == seq![contents@.subrange(start as int, end as int)]
                    + spec_lines(contents@.skip(i + 1)));
            }
            r.push(String::from_str(piece));
            proof {
                assert(r.deep_view() =~= prev.push(contents@.subrange(
                    start as int,
                    end as int,
                )));
                assert(prev.push(contents@.subrange(start as int, end as int)) + spec_lines(
                    contents@.skip(i + 1),
                ) =~= prev + spec_lines(t));
            }
            start = i + 1;
        }
        i = i + 1;
    }
    if start < n {
        let piece = contents.substring_char(start, n);
        let ghost prev = r.deep_view();
        let ghost t = contents@.skip(start as int);
        proof {
            assert forall|j: int| 0 <= j < t.len() implies t[j] != '\n' by {
                assert(t[j] == contents@[start + j]);
            }
            lemma_first_nl_is(t, t.len() as int);
            assert(piece@ =~= t);
            assert(spec_lines(t) == seq![t]);
        }
        r.push(String::from_str(piece));
        proof {
            assert(r.deep_view() =~= prev.push(t));
            assert(prev.push(t) =~= prev + spec_lines(t));
        }
    } else {
        proof {
            assert(contents@.skip(start as int) =~= Seq::<char>::empty());
            assert(r.deep_view() + spec_lines(Seq::<char>::empty()) =~= r.deep_view());
        }
    }
    r
}

} // verus!
