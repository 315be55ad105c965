//! Text as bytes cut into lines, the way `BufRead::read_until(b'\n', ..)`
//! cuts it: every line but the last ends with its `'\n'`, and the last one
//! ends with `'\n'` or with the end of the text.

use vstd::prelude::*;

verus! {

/// The newline byte.
pub open spec fn newline() -> u8 {
    10u8
}

/// The lines of `s`, each with its terminating newline when it has one.
pub open spec fn lines_of(s: Seq<u8>) -> Seq<Seq<u8>>
    decreases s.len(),
{
    if s.len() == 0 {
        Seq::empty()
    } else {
        let p = lines_of(s.drop_last());
        if s.len() == 1 || s[s.len() - 2] == newline() {
            p.push(seq![s.last()])
        } else {
            p.drop_last().push(p.last().push(s.last()))
        }
    }
}

/// A line as `lines_of` cuts one: not empty, and holding a newline only as
/// its last byte.
pub open spec fn is_line(l: Seq<u8>) -> bool {
    &&& l.len() > 0
    &&& forall|i: int| 0 <= i < l.len() - 1 ==> l[i] != newline()
}

/// Lines that `lines_of` could have cut: each is a line, and each but the
/// last ends with a newline.
pub open spec fn well_formed_lines(ls: Seq<Seq<u8>>) -> bool {
    &&& forall|i: int| 0 <= i < ls.len() ==> is_line(#[trigger] ls[i])
    &&& forall|i: int| 0 <= i < ls.len() - 1 ==> (#[trigger] ls[i]).last() == newline()
}

/// Basic facts of `lines_of`: there are lines exactly when there is text,
/// the last line ends where the text ends, there are no more lines than
/// bytes, and the lines are well formed.
pub proof fn lemma_lines_basic(s: Seq<u8>)
    ensures
        (lines_of(s).len() > 0) == (s.len() > 0),
        lines_of(s).len() <= s.len(),
        s.len() > 0 ==> lines_of(s).last().last() == s.last(),
        well_formed_lines(lines_of(s)),
    decreases s.len(),
{
    if s.len() > 0 {
        let t = s.drop_last();
        lemma_lines_basic(t);
        let p = lines_of(t);
        let l = lines_of(s);
        if s.len() == 1 || s[s.len() - 2] == newline() {
            assert(l == p.push(seq![s.last()]));
            assert forall|i: int| 0 <= i < l.len() - 1 implies (#[trigger] l[i]).last()
                == newline() by {
                if i == l.len() - 2 {
                    assert(t.last() == s[s.len() - 2]);
                }
            }
            assert forall|i: int| 0 <= i < l.len() implies is_line(#[trigger] l[i]) by {
                if i < l.len() - 1 {
                    assert(l[i] == p[i]);
                }
            }
        } else {
            let q = p.last().push(s.last());
            assert(l == p.drop_last().push(q));
            assert(t.last() == s[s.len() - 2]);
            assert(p.last().last() != newline());
            assert(is_line(q)) by {
                assert forall|i: int| 0 <= i < q.len() - 1 implies q[i] != newline() by {
                    if i < q.len() - 2 {
                        assert(q[i] == p.last()[i]);
                    }
                }
            }
            assert forall|i: int| 0 <= i < l.len() implies is_line(#[trigger] l[i]) by {
                if i < l.len() - 1 {
                    assert(l[i] == p[i]);
                }
            }
            assert forall|i: int| 0 <= i < l.len() - 1 implies (#[trigger] l[i]).last()
                == newline() by {
                assert(l[i] == p[i]);
            }
        }
    }
}

/// Law: the lines, put back together, give the text.
pub proof fn lemma_lines_flatten(s: Seq<u8>)
    ensures
        lines_of(s).flatten() == s,
    decreases s.len(),
{
    broadcast use Seq::lemma_flatten_push;

    if s.len() > 0 {
        let t = s.drop_last();
        lemma_lines_flatten(t);
        lemma_lines_basic(t);
        let p = lines_of(t);
        if s.len() == 1 || s[s.len() - 2] == newline() {
            assert(p.push(seq![s.last()]).flatten() == p.flatten() + seq![s.last()]);
            assert(t + seq![s.last()] =~= s);
        } else {
            let d = p.drop_last();
            assert(d.push(p.last()) =~= p);
            assert(p.flatten() == d.flatten() + p.last());
            assert(d.push(p.last().push(s.last())).flatten() == d.flatten() + p.last().push(
                s.last(),
            ));
            assert(d.flatten() + p.last().push(s.last()) =~= (d.flatten() + p.last()).push(
                s.last(),
            ));
            assert(t.push(s.last()) =~= s);
        }
    }
}

/// Text that ends at the end of a line starts its next line afresh.
proof fn lemma_lines_concat(a: Seq<u8>, b: Seq<u8>)
    requires
        a.len() == 0 || a.last() == newline(),
    ensures
        lines_of(a + b) == lines_of(a) + lines_of(b),
    decreases b.len(),
{
    if b.len() == 0 {
        assert(a + b =~= a);
        assert(lines_of(a) + lines_of(b) =~= lines_of(a));
    } else {
        let s = a + b;
        assert(s.drop_last() =~= a + b.drop_last());
        lemma_lines_concat(a, b.drop_last());
        lemma_lines_basic(b.drop_last());
        let pa = lines_of(a);
        let pb = lines_of(b.drop_last());
        if b.len() == 1 {
            assert(s.len() == 1 || s[s.len() - 2] == newline());
            assert(pb =~= Seq::<Seq<u8>>::empty());
            assert((pa + pb).push(seq![s.last()]) =~= pa + pb.push(seq![b.last()]));
        } else {
            assert(s[s.len() - 2] == b[b.len() - 2]);
            if b[b.len() - 2] == newline() {
                assert((pa + pb).push(seq![s.last()]) =~= pa + pb.push(seq![b.last()]));
            } else {
                assert((pa + pb).drop_last() =~= pa + pb.drop_last());
                assert((pa + pb).last() == pb.last());
                assert((pa + pb).drop_last().push((pa + pb).last().push(s.last())) =~= pa + pb.drop_last().push(
                    pb.last().push(b.last()),
                ));
            }
        }
    }
}

/// A single line is cut as itself.
proof fn lemma_lines_of_line(l: Seq<u8>)
    requires
        is_line(l),
    ensures
        lines_of(l) == seq![l],
    decreases l.len(),
{
    if l.len() == 1 {
        assert(l.drop_last() =~= Seq::<u8>::empty());
        assert(lines_of(l.drop_last()) =~= Seq::<Seq<u8>>::empty());
        assert(seq![l.last()] =~= l);
        assert(lines_of(l) == Seq::<Seq<u8>>::empty().push(seq![l.last()]));
    } else {
        let t = l.drop_last();
        assert(is_line(t)) by {
            assert forall|i: int| 0 <= i < t.len() - 1 implies t[i] != newline() by {
                assert(t[i] == l[i]);
            }
        }
        lemma_lines_of_line(t);
        assert(l[l.len() - 2] != newline());
        assert(lines_of(t).last().push(l.last()) =~= l);
        assert(lines_of(t).drop_last().push(l) =~= seq![l]);
        assert(lines_of(l) == lines_of(t).drop_last().push(lines_of(t).last().push(l.last())));
    }
}

/// Law: well formed lines, put together and cut again, are cut as they were.
pub proof fn lemma_lines_of_flatten(ls: Seq<Seq<u8>>)
    requires
        well_formed_lines(ls),
    ensures
        lines_of(ls.flatten()) == ls,
    decreases ls.len(),
{
    broadcast use Seq::lemma_flatten_push;

    if ls.len() == 0 {
        assert(ls.flatten() =~= Seq::<u8>::empty());
        assert(lines_of(ls.flatten()) =~= ls);
    } else {
        let d = ls.drop_last();
        assert(well_formed_lines(d)) by {
            assert forall|i: int| 0 <= i < d.len() implies is_line(#[trigger] d[i]) by {
                assert(d[i] == ls[i]);
            }
            assert forall|i: int| 0 <= i < d.len() - 1 implies (#[trigger] d[i]).last()
                == newline() by {
                assert(d[i] == ls[i]);
            }
        }
        lemma_lines_of_flatten(d);
        assert(d.push(ls.last()) =~= ls);
        assert(ls.flatten() == d.flatten() + ls.last());
        if d.len() > 0 {
            lemma_lines_basic(d.flatten());
            assert(d.flatten().len() > 0);
            assert(d.flatten().last() == lines_of(d.flatten()).last().last());
            assert(d.last() == ls[d.len() - 1]);
        }
        assert(is_line(ls[ls.len() - 1]));
        lemma_lines_concat(d.flatten(), ls.last());
        lemma_lines_of_line(ls.last());
        assert(d + seq![ls.last()] =~= ls);
    }
}

/// The lines that follow the first `k`, of well formed lines, are well formed.
pub proof fn lemma_well_formed_skip(ls: Seq<Seq<u8>>, k: int)
    requires
        well_formed_lines(ls),
        0 <= k <= ls.len(),
    ensures
        well_formed_lines(ls.skip(k)),
        well_formed_lines(ls.take(k)),
{
    let s = ls.skip(k);
    assert forall|i: int| 0 <= i < s.len() implies is_line(#[trigger] s[i]) by {
        assert(s[i] == ls[i + k]);
    }
    assert forall|i: int| 0 <= i < s.len() - 1 implies (#[trigger] s[i]).last() == newline() by {
        assert(s[i] == ls[i + k]);
    }
    let t = ls.take(k);
    assert forall|i: int| 0 <= i < t.len() implies is_line(#[trigger] t[i]) by {
        assert(t[i] == ls[i]);
    }
    assert forall|i: int| 0 <= i < t.len() - 1 implies (#[trigger] t[i]).last() == newline() by {
        assert(t[i] == ls[i]);
    }
}

/// Cuts `data` into its lines.
pub fn split_lines(data: &[u8]) -> (r: Vec<Vec<u8>>)
    ensures
        r.deep_view() == lines_of(data@),
{
    let mut r: Vec<Vec<u8>> = Vec::new();
    let mut i: usize = 0;
    while i < data.len()
        invariant
            i <= data.len(),
            r.deep_view() == lines_of(data@.take(i as int)),
        decreases data.len() - i,
    {
        let ghost t = data@.take(i + 1);
        assert(t.drop_last() =~= data@.take(i as int));
        proof {
            lemma_lines_basic(data@.take(i as int));
        }
        let ghost prev = r.deep_view();
        if i == 0 || data[i - 1] == 10u8 {
            let line = vec![data[i]];
            assert(line.deep_view() =~= seq![data@[i as int]]);
            r.push(line);
            assert(r.deep_view() =~= prev.push(seq![data@[i as int]]));
        } else {
            let mut last = r.pop().unwrap();
            assert(last.deep_view() == prev.last());
            last.push(data[i]);
            assert(last.deep_view() =~= prev.last().push(data@[i as int]));
            r.push(last);
            assert(r.deep_view() =~= prev.drop_last().push(prev.last().push(data@[i as int])));
        }
        i = i + 1;
    }
    assert(data@.take(data.len() as int) =~= data@);
    r
}

/// Counts the lines of `data`.
pub fn count_lines(data: &[u8]) -> (n: usize)
    ensures
        n == lines_of(data@).len(),
{
    let mut n: usize = 0;
    let mut i: usize = 0;
    while i < data.len()
        invariant
            i <= data.len(),
            n == lines_of(data@.take(i as int)).len(),
        decreases data.len() - i,
    {
        let ghost t = data@.take(i + 1);
        assert(t.drop_last() =~= data@.take(i as int));
        proof {
            lemma_lines_basic(data@.take(i as int));
        }
        if i == 0 || data[i - 1] == 10u8 {
            n = n + 1;
        }
        i = i + 1;
    }
    assert(data@.take(data.len() as int) =~= data@);
    n
}

} // verus!
