use vstd::prelude::*;

verus! {

/// The pieces of `s` between occurrences of `sep`, as `str::split` yields
/// them: the pieces are maximal runs without `sep`, empty ones included,
/// so there is always one more piece than there are separators.
pub open spec fn split_on(s: Seq<char>, sep: char) -> Seq<Seq<char>>
    decreases s.len(),
{
    if s.len() == 0 {
        seq![Seq::<char>::empty()]
    } else {
        let init = split_on(s.drop_last(), sep);
        if s.last() == sep {
            init.push(Seq::<char>::empty())
        } else {
            init.update(init.len() - 1, init.last().push(s.last()))
        }
    }
}

/// The pieces that `str::split_terminator` yields: those of `split_on`,
/// without the last one when it is empty.
pub open spec fn split_terminated(s: Seq<char>, sep: char) -> Seq<Seq<char>> {
    let parts = split_on(s, sep);
    if parts.last().len() == 0 {
        parts.drop_last()
    } else {
        parts
    }
}

/// `s` without the copies of `c` at its end, as `str::trim_end_matches` gives it.
pub open spec fn trim_end_char(s: Seq<char>, c: char) -> Seq<char>
    decreases s.len(),
{
    if s.len() > 0 && s.last() == c {
        trim_end_char(s.drop_last(), c)
    } else {
        s
    }
}

/// The pieces joined back together with `sep` between neighbours.
pub open spec fn join_with(parts: Seq<Seq<char>>, sep: char) -> Seq<char>
    decreases parts.len(),
{
    if parts.len() == 0 {
        Seq::<char>::empty()
    } else if parts.len() == 1 {
        parts[0]
    } else {
        join_with(parts.drop_last(), sep).push(sep) + parts.last()
    }
}

/// `spans` mark, inside `chars[lo..hi]`, exactly the pieces `parts`.
pub open spec fn spans_hold(
    chars: Seq<char>,
    spans: Seq<(usize, usize)>,
    parts: Seq<Seq<char>>,
    lo: int,
    hi: int,
) -> bool {
    &&& spans.len() == parts.len()
    &&& forall|i: int|
        #![trigger spans[i]]
        0 <= i < spans.len() ==> {
            &&& lo <= spans[i].0 <= spans[i].1 <= hi
            &&& chars.subrange(spans[i].0 as int, spans[i].1 as int) == parts[i]
        }
}

/// The characters of `s`, in order.
pub fn chars_of(s: &str) -> (v: Vec<char>)
    ensures
        v@ == s@,
{
    let mut v: Vec<char> = Vec::new();
    for c in it: s.chars()
        invariant
            v@ == it.seq().take(it.index() as int),
    {
        v.push(c);
    }
    v
}

/// Where the pieces of `chars[start..end]` split at `sep` stand, as
/// `str::split` would yield them.
pub fn split_spans(chars: &Vec<char>, start: usize, end: usize, sep: char) -> (spans: Vec<
    (usize, usize),
>)
    requires
        start <= end <= chars@.len(),
    ensures
        spans_hold(
            chars@,
            spans@,
            split_on(chars@.subrange(start as int, end as int), sep),
            start as int,
            end as int,
        ),
{
    let mut spans: Vec<(usize, usize)> = Vec::new();
    let mut piece_start: usize = start;
    let mut i: usize = start;
    assert(chars@.subrange(start as int, start as int) =~= Seq::<char>::empty());
    while i < end
        invariant
            start <= piece_start <= i <= end <= chars@.len(),
            spans_hold(
                chars@,
                spans@.push((piece_start, i)),
                split_on(chars@.subrange(start as int, i as int), sep),
                start as int,
                i as int,
            ),
        decreases end - i,
    {
        let ghost before = chars@.subrange(start as int, i as int);
        let ghost after = chars@.subrange(start as int, i + 1);
        let ghost old_spans = spans@.push((piece_start, i));
        assert(after.drop_last() =~= before);
        assert(after.last() == chars@[i as int]);
        let ghost init = split_on(before, sep);
        let c = chars[i];
        if c == sep {
            assert(split_on(after, sep) == init.push(Seq::<char>::empty()));
            spans.push((piece_start, i));
            piece_start = i + 1;
            let ghost new_spans = spans@.push((piece_start, (i + 1) as usize));
            assert(chars@.subrange((i + 1) as int, (i + 1) as int) =~= Seq::<char>::empty());
            assert(new_spans =~= old_spans.push(((i + 1) as usize, (i + 1) as usize)));
            assert forall|k: int| #![trigger new_spans[k]] 0 <= k < new_spans.len() implies {
                &&& start <= new_spans[k].0 <= new_spans[k].1 <= i + 1
                &&& chars@.subrange(new_spans[k].0 as int, new_spans[k].1 as int) == split_on(
                    after,
                    sep,
                )[k]
            } by {
                if k < old_spans.len() {
                    assert(new_spans[k] == old_spans[k]);
                }
            }
        } else {
            assert(split_on(after, sep) == init.update(init.len() - 1, init.last().push(c)));
            let ghost new_spans = spans@.push((piece_start, (i + 1) as usize));
            assert(chars@.subrange(piece_start as int, i + 1) =~= chars@.subrange(
                piece_start as int,
                i as int,
            ).push(c));
            assert(new_spans =~= old_spans.update(
                old_spans.len() - 1,
                (piece_start, (i + 1) as usize),
            ));
            assert forall|k: int| #![trigger new_spans[k]] 0 <= k < new_spans.len() implies {
                &&& start <= new_spans[k].0 <= new_spans[k].1 <= i + 1
                &&& chars@.subrange(new_spans[k].0 as int, new_spans[k].1 as int) == split_on(
                    after,
                    sep,
                )[k]
            } by {
                if k < old_spans.len() - 1 {
                    assert(new_spans[k] == old_spans[k]);
                } else {
                    assert(old_spans[k] == (piece_start, i));
                }
            }
        }
        i = i + 1;
    }
    spans.push((piece_start, end));
    spans
}

/// Splitting always yields at least one piece.
pub proof fn lemma_split_on_nonempty(s: Seq<char>, sep: char)
    ensures
        split_on(s, sep).len() >= 1,
    decreases s.len(),
{
    if s.len() > 0 {
        lemma_split_on_nonempty(s.drop_last(), sep);
    }
}

/// Where the pieces of `chars[start..end]` split at `sep` stand, as
/// `str::split_terminator` would yield them.
pub fn split_terminated_spans(chars: &Vec<char>, start: usize, end: usize, sep: char) -> (spans:
    Vec<(usize, usize)>)
    requires
        start <= end <= chars@.len(),
    ensures
        spans_hold(
            chars@,
            spans@,
            split_terminated(chars@.subrange(start as int, end as int), sep),
            start as int,
            end as int,
        ),
{
    let mut spans = split_spans(chars, start, end, sep);
    let ghost parts = split_on(chars@.subrange(start as int, end as int), sep);
    proof {
        lemma_split_on_nonempty(chars@.subrange(start as int, end as int), sep);
    }
    let last = spans[spans.len() - 1];
    assert(parts.last() == chars@.subrange(last.0 as int, last.1 as int));
    if last.0 == last.1 {
        let ghost full = spans@;
        spans.pop();
        assert forall|k: int| #![trigger spans@[k]] 0 <= k < spans@.len() implies {
            &&& start <= spans@[k].0 <= spans@[k].1 <= end
            &&& chars@.subrange(spans@[k].0 as int, spans@[k].1 as int) == parts.drop_last()[k]
        } by {
            assert(spans@[k] == full[k]);
        }
    }
    spans
}

/// Where `chars[start..end]` ends once the copies of `c` at its end are
/// dropped, as `str::trim_end_matches` does.
pub fn trim_end_in(chars: &Vec<char>, start: usize, end: usize, c: char) -> (e: usize)
    requires
        start <= end <= chars@.len(),
    ensures
        start <= e <= end,
        chars@.subrange(start as int, e as int) == trim_end_char(
            chars@.subrange(start as int, end as int),
            c,
        ),
{
    let mut e: usize = end;
    while e > start && chars[e - 1] == c
        invariant
            start <= e <= end <= chars@.len(),
            trim_end_char(chars@.subrange(start as int, e as int), c) == trim_end_char(
                chars@.subrange(start as int, end as int),
                c,
            ),
        decreases e,
    {
        assert(chars@.subrange(start as int, e as int).drop_last() =~= chars@.subrange(
            start as int,
            e - 1,
        ));
        e = e - 1;
    }
    e
}

/// Splitting loses nothing and keeps no separator: joining the pieces of
/// `str::split` with `sep` gives `s` back, and no piece holds `sep`.
pub proof fn lemma_split_join(s: Seq<char>, sep: char)
    ensures
        join_with(split_on(s, sep), sep) == s,
        forall|i: int|
            0 <= i < split_on(s, sep).len() ==> !(#[trigger] split_on(s, sep)[i]).contains(sep),
    decreases s.len(),
{
    let parts = split_on(s, sep);
    if s.len() == 0 {
        assert(!parts[0].contains(sep));
    } else {
        let init = split_on(s.drop_last(), sep);
        let c = s.last();
        lemma_split_join(s.drop_last(), sep);
        lemma_split_on_nonempty(s.drop_last(), sep);
        if c == sep {
            assert(parts.drop_last() =~= init);
            assert(join_with(parts, sep) =~= s.drop_last().push(sep));
            assert(s.drop_last().push(sep) =~= s);
            assert forall|i: int| 0 <= i < parts.len() implies !(#[trigger] parts[i]).contains(
                sep,
            ) by {
                if i < init.len() {
                    assert(parts[i] == init[i]);
                } else {
                    assert(parts[i] =~= Seq::<char>::empty());
                }
            }
        } else {
            let n: int = init.len() as int;
            let piece = init.last().push(c);
            if n == 1 {
                assert(join_with(parts, sep) == piece);
                assert(init[0] == s.drop_last());
                assert(piece =~= s);
            } else {
                assert(parts.drop_last() =~= init.drop_last());
                assert(join_with(init, sep) == join_with(init.drop_last(), sep).push(sep)
                    + init.last());
                assert(join_with(parts, sep) =~= join_with(init, sep).push(c));
                assert(s.drop_last().push(c) =~= s);
            }
            assert forall|i: int| 0 <= i < parts.len() implies !(#[trigger] parts[i]).contains(
                sep,
            ) by {
                if i < n - 1 {
                    assert(parts[i] == init[i]);
                } else {
                    assert(parts[i] == piece);
                    assert(!init[n - 1].contains(sep));
                    if piece.contains(sep) {
                        let j: int = choose|j: int| 0 <= j < piece.len() && piece[j] == sep;
                        if j < init[n - 1].len() {
                            assert(init[n - 1][j] == sep);
                        }
                    }
                }
            }
        }
    }
}

/// Trimming only drops copies of `c` from the end, and stops at the first
/// character that is not `c`: the result is a prefix of `s` that does not end
/// with `c`, and everything after it in `s` is `c`.
pub proof fn lemma_trim_end_char(s: Seq<char>, c: char)
    ensures
        trim_end_char(s, c).len() <= s.len(),
        trim_end_char(s, c) == s.take(trim_end_char(s, c).len() as int),
        trim_end_char(s, c).len() == 0 || trim_end_char(s, c).last() != c,
        forall|i: int| trim_end_char(s, c).len() <= i < s.len() ==> #[trigger] s[i] == c,
    decreases s.len(),
{
    if s.len() > 0 && s.last() == c {
        lemma_trim_end_char(s.drop_last(), c);
        let t = trim_end_char(s, c);
        assert(t == trim_end_char(s.drop_last(), c));
        assert(s.drop_last().take(t.len() as int) =~= s.take(t.len() as int));
        assert forall|i: int| t.len() <= i < s.len() implies #[trigger] s[i] == c by {
            if i < s.len() - 1 {
                assert(s.drop_last()[i] == s[i]);
            }
        }
    } else {
        assert(s.take(s.len() as int) =~= s);
    }
}

/// Whether `x` occurs in `s` as a contiguous run.
#[verifier::opaque]
pub open spec fn has_infix(s: Seq<char>, x: Seq<char>) -> bool {
    exists|i: int| 0 <= i <= s.len() - x.len() && #[trigger] s.subrange(i, i + x.len()) == x
}

/// Whether `s` ends with `x`.
#[verifier::opaque]
pub open spec fn ends_with(s: Seq<char>, x: Seq<char>) -> bool {
    x.len() <= s.len() && s.subrange(s.len() - x.len(), s.len() as int) == x
}

/// Whether `s` begins with `x`.
#[verifier::opaque]
pub open spec fn starts_with(s: Seq<char>, x: Seq<char>) -> bool {
    x.len() <= s.len() && s.subrange(0, x.len() as int) == x
}

/// What stands between a prefix and a suffix occurs in the whole.
pub proof fn lemma_infix_of_concat(a: Seq<char>, x: Seq<char>, b: Seq<char>)
    ensures
        has_infix(a + x + b, x),
        starts_with(a + x + b, a),
        ends_with(a + x + b, b),
{
    reveal(has_infix);
    reveal(starts_with);
    reveal(ends_with);
    let s = a + x + b;
    assert(s.subrange(a.len() as int, (a.len() + x.len()) as int) =~= x);
    assert(s.subrange(0, a.len() as int) =~= a);
    assert(s.subrange(s.len() - b.len(), s.len() as int) =~= b);
}

/// Both halves of a concatenation occur in it.
pub proof fn lemma_infix_halves(a: Seq<char>, b: Seq<char>)
    ensures
        has_infix(a + b, a),
        has_infix(a + b, b),
        starts_with(a + b, a),
        ends_with(a + b, b),
{
    lemma_infix_of_concat(a, b, Seq::<char>::empty());
    lemma_infix_of_concat(Seq::<char>::empty(), a, b);
    assert(a + b + Seq::<char>::empty() =~= a + b);
    assert(Seq::<char>::empty() + a + b =~= a + b);
}

/// What occurs in a part occurs in the whole.
pub proof fn lemma_infix_trans(s: Seq<char>, x: Seq<char>, y: Seq<char>)
    requires
        has_infix(s, x),
        has_infix(x, y),
    ensures
        has_infix(s, y),
{
    reveal(has_infix);
    let i = choose|i: int| 0 <= i <= s.len() - x.len() && #[trigger] s.subrange(i, i + x.len()) == x;
    let j = choose|j: int| 0 <= j <= x.len() - y.len() && #[trigger] x.subrange(j, j + y.len()) == y;
    assert(s.subrange(i + j, i + j + y.len()) =~= x.subrange(j, j + y.len()));
}

/// A prefix of a prefix is a prefix.
pub proof fn lemma_starts_with_trans(s: Seq<char>, x: Seq<char>, y: Seq<char>)
    requires
        starts_with(s, x),
        starts_with(x, y),
    ensures
        starts_with(s, y),
{
    reveal(starts_with);
    assert(s.subrange(0, y.len() as int) =~= x.subrange(0, y.len() as int));
}

/// The last five pieces of a left-nested concatenation end it, taken together.
pub proof fn lemma_ends_with_five(
    x: Seq<char>,
    a: Seq<char>,
    b: Seq<char>,
    c: Seq<char>,
    d: Seq<char>,
    e: Seq<char>,
)
    ensures
        has_infix(x + a + b + c + d + e, a + b + c + d + e),
{
    assert(x + a + b + c + d + e =~= x + (a + b + c + d + e));
    lemma_infix_halves(x, a + b + c + d + e);
}

/// The last pieces of a left-nested concatenation end it, taken together.
pub proof fn lemma_ends_with_pieces(x: Seq<char>, a: Seq<char>, b: Seq<char>, c: Seq<char>)
    ensures
        ends_with(x + a + b + c, a + b + c),
        has_infix(x + a + b + c, a + b + c),
{
    assert(x + a + b + c =~= x + (a + b + c));
    lemma_infix_halves(x, a + b + c);
}

/// Text without the separator is a single piece.
pub proof fn lemma_split_without_separator(s: Seq<char>, sep: char)
    requires
        !s.contains(sep),
    ensures
        split_on(s, sep) == seq![s],
    decreases s.len(),
{
    if s.len() == 0 {
        assert(s =~= Seq::<char>::empty());
        assert(split_on(s, sep) =~= seq![s]);
    } else {
        let init = s.drop_last();
        assert(!init.contains(sep)) by {
            if init.contains(sep) {
                let j = choose|j: int| 0 <= j < init.len() && init[j] == sep;
                assert(s[j] == sep);
            }
        }
        assert(s.last() != sep) by {
            assert(s[s.len() - 1] == s.last());
        }
        lemma_split_without_separator(init, sep);
        assert(init.push(s.last()) =~= s);
        assert(split_on(s, sep) =~= seq![s]);
    }
}

/// Splitting two texts joined by the separator gives the pieces of the first
/// followed by the pieces of the second.
pub proof fn lemma_split_concat(x: Seq<char>, y: Seq<char>, sep: char)
    ensures
        split_on(x + seq![sep] + y, sep) == split_on(x, sep) + split_on(y, sep),
    decreases y.len(),
{
    let xs = x + seq![sep];
    if y.len() == 0 {
        assert(xs + y =~= xs);
        assert(xs.drop_last() =~= x);
        assert(split_on(xs, sep) =~= split_on(x, sep) + split_on(y, sep));
    } else {
        let init = y.drop_last();
        let c = y.last();
        lemma_split_concat(x, init, sep);
        lemma_split_on_nonempty(init, sep);
        assert((xs + y).drop_last() =~= xs + init);
        assert((xs + y).last() == c);
        let a = split_on(x, sep);
        let b = split_on(init, sep);
        if c == sep {
            assert(split_on(xs + y, sep) =~= (a + b).push(Seq::<char>::empty()));
            assert((a + b).push(Seq::<char>::empty()) =~= a + b.push(Seq::<char>::empty()));
        } else {
            let ab = a + b;
            assert(split_on(xs + y, sep) == ab.update(ab.len() - 1, ab.last().push(c)));
            assert(ab.update(ab.len() - 1, ab.last().push(c)) =~= a + b.update(
                b.len() - 1,
                b.last().push(c),
            ));
        }
    }
}

} // verus!
