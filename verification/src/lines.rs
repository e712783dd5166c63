use vstd::prelude::*;

verus! {

/// The line terminator: each path in the scratch file stands on a line of
/// its own, ended by this byte.
pub const NL: u8 = 10;

/// Index of the first line-terminator byte of `s`, or `s.len()` when `s`
/// holds none.
pub open spec fn find_nl(s: Seq<u8>) -> nat
    decreases s.len(),
{
    if s.len() == 0 {
        0
    } else if s[0] == NL {
        0
    } else {
        find_nl(s.skip(1)) + 1
    }
}

/// `find_nl` points at the first terminator: everything before it is an
/// ordinary byte, and the byte there (if any) is the terminator.
pub proof fn lemma_find_nl_props(s: Seq<u8>)
    ensures
        find_nl(s) <= s.len(),
        forall|k: int| 0 <= k < find_nl(s) ==> s[k] != NL,
        find_nl(s) < s.len() ==> s[find_nl(s) as int] == NL,
    decreases s.len(),
{
    if s.len() == 0 {
    } else if s[0] == NL {
    } else {
        lemma_find_nl_props(s.skip(1));
        assert forall|k: int| 0 <= k < find_nl(s) implies s[k] != NL by {
            if k > 0 {
                assert(s.skip(1)[k - 1] == s[k]);
            }
        }
        if find_nl(s) < s.len() {
            assert(s.skip(1)[find_nl(s) - 1] == s[find_nl(s) as int]);
        }
    }
}

/// Conversely, a position with no terminator before it and a terminator at
/// it (or the end of the sequence) is where `find_nl` points.
pub proof fn lemma_find_nl_at(s: Seq<u8>, i: int)
    requires
        0 <= i <= s.len(),
        forall|k: int| 0 <= k < i ==> s[k] != NL,
        i < s.len() ==> s[i] == NL,
    ensures
        find_nl(s) == i,
    decreases i,
{
    if i == 0 {
    } else {
        assert(s[0] != NL);
        assert forall|k: int| 0 <= k < i - 1 implies s.skip(1)[k] != NL by {
            assert(s.skip(1)[k] == s[k + 1]);
        }
        if i - 1 < s.skip(1).len() {
            assert(s.skip(1)[i - 1] == s[i]);
        }
        lemma_find_nl_at(s.skip(1), i - 1);
    }
}

/// The lines of `s`: maximal terminator-free runs, in order.  A final run
/// without a terminator still counts as a line; a terminator at the very end
/// does not open an extra empty line.
pub open spec fn split_lines_spec(s: Seq<u8>) -> Seq<Seq<u8>>
    decreases s.len(),
{
    if s.len() == 0 {
        Seq::empty()
    } else {
        let i = find_nl(s) as int;
        if i < s.len() {
            seq![s.take(i)] + split_lines_spec(s.skip(i + 1))
        } else {
            seq![s]
        }
    }
}

/// The non-blank lines of `lines`, in order.
pub open spec fn keep_nonempty(lines: Seq<Seq<u8>>) -> Seq<Seq<u8>>
    decreases lines.len(),
{
    if lines.len() == 0 {
        Seq::empty()
    } else {
        let rest = keep_nonempty(lines.drop_last());
        if lines.last().len() == 0 {
            rest
        } else {
            rest.push(lines.last())
        }
    }
}

/// What reading the edited scratch file yields: its lines, with blank lines
/// dropped (a blank line means "no content here", not an empty path).
pub open spec fn destination_lines_spec(s: Seq<u8>) -> Seq<Seq<u8>> {
    keep_nonempty(split_lines_spec(s))
}

/// What writing a path list to the scratch file yields: each entry followed
/// by one terminator byte.
pub open spec fn render_spec(lines: Seq<Seq<u8>>) -> Seq<u8>
    decreases lines.len(),
{
    if lines.len() == 0 {
        Seq::empty()
    } else {
        render_spec(lines.drop_last()) + lines.last() + seq![NL]
    }
}

/// First terminator at or after `start`, or the length when there is none.
fn find_from(bytes: &Vec<u8>, start: usize) -> (r: usize)
    requires
        start <= bytes@.len(),
    ensures
        start <= r <= bytes@.len(),
        r - start == find_nl(bytes@.skip(start as int)),
        r < bytes@.len() ==> bytes@[r as int] == NL,
{
    let mut i: usize = start;
    while i < bytes.len() && bytes[i] != NL
        invariant
            start <= i <= bytes@.len(),
            forall|k: int| start <= k < i ==> bytes@[k] != NL,
        decreases bytes@.len() - i,
    {
        i = i + 1;
    }
    proof {
        let t = bytes@.skip(start as int);
        assert forall|k: int| 0 <= k < i - start implies t[k] != NL by {
            assert(t[k] == bytes@[start + k]);
        }
        if i < bytes@.len() {
            assert(t[i - start] == bytes@[i as int]);
        }
        lemma_find_nl_at(t, i - start);
    }
    i
}

/// A fresh vector holding `bytes[from..to]`.
pub(crate) fn copy_range(bytes: &Vec<u8>, from: usize, to: usize) -> (r: Vec<u8>)
    requires
        from <= to <= bytes@.len(),
    ensures
        r@ == bytes@.subrange(from as int, to as int),
{
    let mut out: Vec<u8> = Vec::new();
    let mut i: usize = from;
    while i < to
        invariant
            from <= i <= to <= bytes@.len(),
            out@ == bytes@.subrange(from as int, i as int),
        decreases to - i,
    {
        out.push(bytes[i]);
        proof {
            assert(out@ =~= bytes@.subrange(from as int, i + 1));
        }
        i = i + 1;
    }
    out
}

/// A fresh vector holding the same bytes.
pub(crate) fn clone_bytes(bytes: &Vec<u8>) -> (r: Vec<u8>)
    ensures
        r@ == bytes@,
{
    let r = copy_range(bytes, 0, bytes.len());
    proof {
        assert(bytes@.subrange(0, bytes@.len() as int) =~= bytes@);
    }
    r
}

/// Splits the scratch file's contents into its lines.
pub fn split_lines(bytes: &Vec<u8>) -> (r: Vec<Vec<u8>>)
    ensures
        r.deep_view() == split_lines_spec(bytes@),
{
    let mut lines: Vec<Vec<u8>> = Vec::new();
    let mut pos: usize = 0;
    proof {
        assert(bytes@.skip(0) =~= bytes@);
        assert(lines.deep_view() + split_lines_spec(bytes@) =~~= split_lines_spec(bytes@));
    }
    while pos < bytes.len()
        invariant
            pos <= bytes@.len(),
            lines.deep_view() + split_lines_spec(bytes@.skip(pos as int)) == split_lines_spec(bytes@),
        decreases bytes@.len() - pos,
    {
        let nl = find_from(bytes, pos);
        let line = copy_range(bytes, pos, nl);
        let new_pos = if nl < bytes.len() { nl + 1 } else { nl };
        let ghost t = bytes@.skip(pos as int);
        let ghost prev = lines.deep_view();
        lines.push(line);
        proof {
            if nl < bytes@.len() {
                assert(t.take(find_nl(t) as int) =~= line@);
                assert(t.skip(find_nl(t) as int + 1) =~= bytes@.skip(new_pos as int));
                assert(split_lines_spec(t) == seq![line@] + split_lines_spec(
                    bytes@.skip(new_pos as int),
                ));
            } else {
                assert(t =~= line@);
                assert(bytes@.skip(new_pos as int) =~= Seq::<u8>::empty());
                assert(split_lines_spec(t) =~~= seq![line@] + split_lines_spec(
                    bytes@.skip(new_pos as int),
                ));
            }
            assert(lines.deep_view() =~~= prev.push(line@));
            assert(lines.deep_view() + split_lines_spec(bytes@.skip(new_pos as int)) =~~= prev + (
            seq![line@] + split_lines_spec(bytes@.skip(new_pos as int))));
        }
        pos = new_pos;
    }
    proof {
        assert(bytes@.skip(pos as int) =~= Seq::<u8>::empty());
        assert(lines.deep_view() + split_lines_spec(bytes@.skip(pos as int)) =~~= lines.deep_view());
    }
    lines
}

/// Reads the destination list out of the edited scratch file's contents:
/// its lines, blank ones dropped.
pub fn destination_lines(bytes: &Vec<u8>) -> (r: Vec<Vec<u8>>)
    ensures
        r.deep_view() == destination_lines_spec(bytes@),
{
    let all = split_lines(bytes);
    let mut kept: Vec<Vec<u8>> = Vec::new();
    let mut i: usize = 0;
    while i < all.len()
        invariant
            i <= all@.len(),
            all.deep_view() == split_lines_spec(bytes@),
            kept.deep_view() == keep_nonempty(all.deep_view().take(i as int)),
        decreases all@.len() - i,
    {
        let ghost s = all.deep_view();
        let ghost prev = kept.deep_view();
        proof {
            assert(s[i as int] =~= all@[i as int]@);
            assert(s.take(i + 1).drop_last() =~~= s.take(i as int));
            assert(s.take(i + 1).last() == s[i as int]);
        }
        if all[i].len() > 0 {
            let line = clone_bytes(&all[i]);
            kept.push(line);
            proof {
                assert(kept.deep_view() =~~= prev.push(s[i as int]));
            }
        }
        i = i + 1;
    }
    proof {
        assert(all.deep_view().take(all@.len() as int) =~~= all.deep_view());
    }
    kept
}

/// Appends every byte of `line` to `out`.
fn push_all(out: &mut Vec<u8>, line: &Vec<u8>)
    ensures
        final(out)@ == old(out)@ + line@,
{
    let mut i: usize = 0;
    while i < line.len()
        invariant
            i <= line@.len(),
            out@ == old(out)@ + line@.take(i as int),
        decreases line@.len() - i,
    {
        out.push(line[i]);
        proof {
            assert(out@ =~= old(out)@ + line@.take(i + 1));
        }
        i = i + 1;
    }
    proof {
        assert(line@.take(line@.len() as int) =~= line@);
    }
}

/// Renders a path list into the scratch file's contents: each path followed
/// by one terminator byte.
pub fn render_lines(lines: &Vec<Vec<u8>>) -> (r: Vec<u8>)
    ensures
        r@ == render_spec(lines.deep_view()),
{
    let mut out: Vec<u8> = Vec::new();
    let mut i: usize = 0;
    while i < lines.len()
        invariant
            i <= lines@.len(),
            out@ == render_spec(lines.deep_view().take(i as int)),
        decreases lines@.len() - i,
    {
        push_all(&mut out, &lines[i]);
        out.push(NL);
        proof {
            let s = lines.deep_view();
            assert(s.take(i + 1).drop_last() =~~= s.take(i as int));
            assert(s.take(i + 1).last() == s[i as int]);
            assert(s[i as int] =~= lines@[i as int]@);
            assert(out@ =~= render_spec(s.take(i as int)) + s[i as int] + seq![NL]);
        }
        i = i + 1;
    }
    proof {
        assert(lines.deep_view().take(lines@.len() as int) =~~= lines.deep_view());
    }
    out
}

/// Dropping blank lines respects concatenation.
pub proof fn lemma_keep_nonempty_add(a: Seq<Seq<u8>>, b: Seq<Seq<u8>>)
    ensures
        keep_nonempty(a + b) == keep_nonempty(a) + keep_nonempty(b),
    decreases b.len(),
{
    if b.len() == 0 {
        assert(a + b =~~= a);
        assert(keep_nonempty(a) + keep_nonempty(b) =~~= keep_nonempty(a));
    } else {
        lemma_keep_nonempty_add(a, b.drop_last());
        assert((a + b).drop_last() =~~= a + b.drop_last());
        assert((a + b).last() == b.last());
        if b.last().len() != 0 {
            assert((keep_nonempty(a) + keep_nonempty(b.drop_last())).push(b.last()) =~~= keep_nonempty(
                a,
            ) + keep_nonempty(b.drop_last()).push(b.last()));
        }
    }
}

/// One trailing blank line in the edited file is ignored: a terminator
/// appended to the contents leaves the destination list unchanged.
pub proof fn lemma_trailing_blank_line_ignored(bytes: Seq<u8>)
    ensures
        destination_lines_spec(bytes.push(NL)) == destination_lines_spec(bytes),
    decreases bytes.len(),
{
    let e = bytes.push(NL);
    lemma_find_nl_props(bytes);
    if bytes.len() == 0 {
        assert(e[0] == NL);
        lemma_find_nl_at(e, 0);
        assert(e.skip(1) =~= Seq::<u8>::empty());
        assert(e.take(0) =~= Seq::<u8>::empty());
        assert(split_lines_spec(Seq::<u8>::empty()) == Seq::<Seq<u8>>::empty());
        assert(split_lines_spec(e) =~~= seq![Seq::<u8>::empty()]);
        assert(seq![Seq::<u8>::empty()].drop_last() =~~= Seq::<Seq<u8>>::empty());
        assert(seq![Seq::<u8>::empty()].last().len() == 0);
        assert(keep_nonempty(Seq::<Seq<u8>>::empty()) == Seq::<Seq<u8>>::empty());
        assert(keep_nonempty(seq![Seq::<u8>::empty()]) == Seq::<Seq<u8>>::empty());
        assert(keep_nonempty(split_lines_spec(e)) =~~= Seq::<Seq<u8>>::empty());
        assert(destination_lines_spec(bytes) =~~= Seq::<Seq<u8>>::empty());
    } else {
        let i = find_nl(bytes) as int;
        assert forall|k: int| 0 <= k < i implies e[k] != NL by {
            assert(e[k] == bytes[k]);
        }
        if i == bytes.len() {
            assert(e[i] == NL);
            lemma_find_nl_at(e, i);
            assert(e.take(i) =~= bytes);
            assert(e.skip(i + 1) =~= Seq::<u8>::empty());
            assert(split_lines_spec(Seq::<u8>::empty()) == Seq::<Seq<u8>>::empty());
            assert(split_lines_spec(e) == seq![e.take(i)] + split_lines_spec(e.skip(i + 1)));
            assert(split_lines_spec(e) =~~= seq![bytes]);
            assert(split_lines_spec(bytes) =~~= seq![bytes]);
        } else {
            assert(e[i] == bytes[i]);
            lemma_find_nl_at(e, i);
            assert(e.take(i) =~= bytes.take(i));
            assert(e.skip(i + 1) =~= bytes.skip(i + 1).push(NL));
            assert(split_lines_spec(e) == seq![bytes.take(i)] + split_lines_spec(
                bytes.skip(i + 1).push(NL),
            ));
            assert(split_lines_spec(bytes) == seq![bytes.take(i)] + split_lines_spec(
                bytes.skip(i + 1),
            ));
            lemma_trailing_blank_line_ignored(bytes.skip(i + 1));
            lemma_keep_nonempty_add(
                seq![bytes.take(i)],
                split_lines_spec(bytes.skip(i + 1).push(NL)),
            );
            lemma_keep_nonempty_add(seq![bytes.take(i)], split_lines_spec(bytes.skip(i + 1)));
        }
    }
}

/// A path list whose entries can each stand on a line of their own: none
/// holds a terminator byte.  A path with an embedded line break cannot be
/// represented in the scratch file and would corrupt the pairing.
pub open spec fn line_safe(lines: Seq<Seq<u8>>) -> bool {
    forall|i: int| 0 <= i < lines.len() ==> !lines[i].contains(NL)
}

/// Rendering respects concatenation.
pub proof fn lemma_render_add(a: Seq<Seq<u8>>, b: Seq<Seq<u8>>)
    ensures
        render_spec(a + b) == render_spec(a) + render_spec(b),
    decreases b.len(),
{
    if b.len() == 0 {
        assert(a + b =~~= a);
        assert(render_spec(b) == Seq::<u8>::empty());
        assert(render_spec(a) + render_spec(b) =~= render_spec(a));
    } else {
        lemma_render_add(a, b.drop_last());
        assert((a + b).drop_last() =~~= a + b.drop_last());
        assert((a + b).last() == b.last());
        assert(render_spec(a) + render_spec(b.drop_last()) + b.last() + seq![NL] =~= render_spec(a)
            + (render_spec(b.drop_last()) + b.last() + seq![NL]));
    }
}

/// Splitting undoes rendering: a scratch file written from a list of
/// terminator-free paths reads back as exactly that list.
pub proof fn lemma_split_render_round_trip(lines: Seq<Seq<u8>>)
    requires
        line_safe(lines),
    ensures
        split_lines_spec(render_spec(lines)) == lines,
    decreases lines.len(),
{
    if lines.len() == 0 {
    } else {
        let head = lines[0];
        let tail = lines.skip(1);
        assert(lines =~~= seq![head] + tail);
        lemma_render_add(seq![head], tail);
        assert(seq![head].drop_last() =~~= Seq::<Seq<u8>>::empty());
        assert(render_spec(Seq::<Seq<u8>>::empty()) == Seq::<u8>::empty());
        assert(seq![head].last() == head);
        assert(render_spec(seq![head]) =~= head + seq![NL]);
        let r = render_spec(lines);
        assert(r =~= head + seq![NL] + render_spec(tail));
        assert(!head.contains(NL));
        assert forall|k: int| 0 <= k < head.len() implies r[k] != NL by {
            assert(r[k] == head[k]);
        }
        assert(r[head.len() as int] == NL);
        lemma_find_nl_at(r, head.len() as int);
        assert(r.take(head.len() as int) =~= head);
        assert(r.skip(head.len() as int + 1) =~= render_spec(tail));
        assert forall|i: int| 0 <= i < tail.len() implies !tail[i].contains(NL) by {
            assert(tail[i] == lines[i + 1]);
        }
        lemma_split_render_round_trip(tail);
        assert(split_lines_spec(r) =~~= lines);
    }
}

/// A list with no blank entries passes the blank-line filter unchanged.
pub proof fn lemma_keep_nonempty_identity(lines: Seq<Seq<u8>>)
    requires
        forall|i: int| 0 <= i < lines.len() ==> lines[i].len() != 0,
    ensures
        keep_nonempty(lines) == lines,
    decreases lines.len(),
{
    if lines.len() == 0 {
    } else {
        assert forall|i: int| 0 <= i < lines.drop_last().len() implies lines.drop_last()[i].len()
            != 0 by {
            assert(lines.drop_last()[i] == lines[i]);
        }
        lemma_keep_nonempty_identity(lines.drop_last());
        assert(keep_nonempty(lines.drop_last()).push(lines.last()) =~~= lines);
    }
}

/// `n` blank lines: a run of bare terminators.
pub open spec fn blank_lines(n: nat) -> Seq<u8> {
    Seq::new(n, |i: int| NL)
}

/// Blank trailing lines in the edited file are ignored: however many empty
/// lines follow the contents, the destination list stays the same, so they
/// never count toward its length.
pub proof fn lemma_trailing_blank_lines_ignored(bytes: Seq<u8>, n: nat)
    ensures
        destination_lines_spec(bytes + blank_lines(n)) == destination_lines_spec(bytes),
    decreases n,
{
    if n == 0 {
        assert(bytes + blank_lines(0) =~= bytes);
    } else {
        lemma_trailing_blank_lines_ignored(bytes, (n - 1) as nat);
        assert(bytes + blank_lines(n) =~= (bytes + blank_lines((n - 1) as nat)).push(NL));
        lemma_trailing_blank_line_ignored(bytes + blank_lines((n - 1) as nat));
    }
}

} // verus!
