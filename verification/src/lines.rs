//! Line splitting and whitespace trimming on character sequences, with the
//! meaning std gives `str::lines` and `str::trim`.
use vstd::prelude::*;

verus! {

/// The Unicode `White_Space` property, which std's `char::is_whitespace`
/// and `str::trim` go by.
pub open spec fn is_white_space(c: char) -> bool {
    let u = c as u32;
    ||| 0x09 <= u <= 0x0D
    ||| u == 0x20
    ||| u == 0x85
    ||| u == 0xA0
    ||| u == 0x1680
    ||| 0x2000 <= u <= 0x200A
    ||| u == 0x2028
    ||| u == 0x2029
    ||| u == 0x202F
    ||| u == 0x205F
    ||| u == 0x3000
}

/// Whether a character is Unicode white space.
pub fn white_space(c: char) -> (res: bool)
    ensures
        res == is_white_space(c),
{
    let u = c as u32;
    (0x09 <= u && u <= 0x0D) || u == 0x20 || u == 0x85 || u == 0xA0 || u == 0x1680 || (0x2000
        <= u && u <= 0x200A) || u == 0x2028 || u == 0x2029 || u == 0x202F || u == 0x205F || u
        == 0x3000
}

/// `s` without its leading white space.
pub open spec fn trim_start(s: Seq<char>) -> Seq<char>
    decreases s.len(),
{
    if s.len() > 0 && is_white_space(s[0]) {
        trim_start(s.drop_first())
    } else {
        s
    }
}

/// `s` without its trailing white space.
pub open spec fn trim_end(s: Seq<char>) -> Seq<char>
    decreases s.len(),
{
    if s.len() > 0 && is_white_space(s.last()) {
        trim_end(s.drop_last())
    } else {
        s
    }
}

/// `s` without leading and trailing white space (std `str::trim`).
pub open spec fn trim(s: Seq<char>) -> Seq<char> {
    trim_end(trim_start(s))
}

proof fn lemma_trim_start_skip(s: Seq<char>, i: int)
    requires
        0 <= i <= s.len(),
        forall|j: int| 0 <= j < i ==> is_white_space(#[trigger] s[j]),
    ensures
        trim_start(s) == trim_start(s.subrange(i, s.len() as int)),
    decreases i,
{
    if i > 0 {
        assert(s.drop_first().subrange(i - 1, s.drop_first().len() as int) =~= s.subrange(
            i,
            s.len() as int,
        ));
        lemma_trim_start_skip(s.drop_first(), i - 1);
    } else {
        assert(s.subrange(0, s.len() as int) =~= s);
    }
}

proof fn lemma_trim_end_take(s: Seq<char>, k: int)
    requires
        0 <= k <= s.len(),
        forall|j: int| k <= j < s.len() ==> is_white_space(#[trigger] s[j]),
    ensures
        trim_end(s) == trim_end(s.subrange(0, k)),
    decreases s.len() - k,
{
    if k < s.len() {
        assert(s.drop_last().subrange(0, k) =~= s.subrange(0, k));
        lemma_trim_end_take(s.drop_last(), k);
    } else {
        assert(s.subrange(0, k) =~= s);
    }
}

/// The bounds `[start, end)` of `trim(s[from..to])` within `s`.
pub fn trim_bounds(s: &[char], from: usize, to: usize) -> (res: (usize, usize))
    requires
        from <= to <= s.len(),
    ensures
        from <= res.0 <= res.1 <= to,
        s@.subrange(res.0 as int, res.1 as int) == trim(s@.subrange(from as int, to as int)),
{
    let ghost whole = s@.subrange(from as int, to as int);
    let mut a = from;
    while a < to && white_space(s[a])
        invariant
            from <= a <= to <= s.len(),
            whole == s@.subrange(from as int, to as int),
            forall|j: int| 0 <= j < a - from ==> is_white_space(#[trigger] whole[j]),
        decreases to - a,
    {
        a += 1;
    }
    proof {
        lemma_trim_start_skip(whole, a - from);
        assert(whole.subrange(a - from, whole.len() as int) =~= s@.subrange(a as int, to as int));
    }
    let ghost started = s@.subrange(a as int, to as int);
    assert(trim_start(whole) == started) by {
        if a < to {
            assert(started[0] == s@[a as int]);
        }
    }
    let mut b = to;
    while b > a && white_space(s[b - 1])
        invariant
            from <= a <= b <= to <= s.len(),
            started == s@.subrange(a as int, to as int),
            forall|j: int| b - a <= j < started.len() ==> is_white_space(#[trigger] started[j]),
        decreases b - a,
    {
        b -= 1;
    }
    proof {
        lemma_trim_end_take(started, b - a);
        assert(started.subrange(0, b - a) =~= s@.subrange(a as int, b as int));
        let t = s@.subrange(a as int, b as int);
        if t.len() > 0 {
            assert(t.last() == s@[b - 1]);
        }
    }
    (a, b)
}

/// Whether `s` starts with `prefix`.
pub open spec fn starts_with(s: Seq<char>, prefix: Seq<char>) -> bool {
    prefix.len() <= s.len() && s.subrange(0, prefix.len() as int) == prefix
}

/// The pieces of `s` between `\n` characters; there is always one more
/// piece than there are newlines.
pub open spec fn newline_pieces(s: Seq<char>) -> Seq<Seq<char>>
    decreases s.len(),
{
    if s.len() == 0 {
        seq![Seq::<char>::empty()]
    } else {
        let init = newline_pieces(s.drop_last());
        if s.last() == '\n' {
            init.push(Seq::<char>::empty())
        } else {
            init.update(init.len() - 1, init.last().push(s.last()))
        }
    }
}

/// There is always at least one piece.
pub proof fn lemma_newline_pieces_nonempty(s: Seq<char>)
    ensures
        newline_pieces(s).len() >= 1,
    decreases s.len(),
{
    if s.len() > 0 {
        lemma_newline_pieces_nonempty(s.drop_last());
    }
}

/// `piece` without one trailing `\r`.
pub open spec fn strip_cr(piece: Seq<char>) -> Seq<char> {
    if piece.len() > 0 && piece.last() == '\r' {
        piece.drop_last()
    } else {
        piece
    }
}

/// The lines of `s` as std's `str::lines` gives them: split at `\n`, a
/// `\r` before a `\n` dropped, and no empty last line after a final `\n`.
pub open spec fn lines_of(s: Seq<char>) -> Seq<Seq<char>> {
    let p = newline_pieces(s);
    let kept = if p.last().len() == 0 { (p.len() - 1) as nat } else { p.len() };
    Seq::new(kept, |i: int| if i < p.len() - 1 { strip_cr(p[i]) } else { p[i] })
}

/// The lines of a character sequence, as `(start, end)` bounds into it.
pub fn line_bounds(s: &[char]) -> (res: Vec<(usize, usize)>)
    ensures
        res@.len() == lines_of(s@).len(),
        forall|k: int|
            #![trigger res@[k]]
            0 <= k < res@.len() ==> {
                &&& res@[k].0 <= res@[k].1 <= s@.len()
                &&& s@.subrange(res@[k].0 as int, res@[k].1 as int) == lines_of(s@)[k]
            },
{
    let mut res: Vec<(usize, usize)> = Vec::new();
    let mut start: usize = 0;
    let mut i: usize = 0;
    proof {
        assert(s@.take(0) =~= Seq::<char>::empty());
    }
    while i < s.len()
        invariant
            start <= i <= s.len(),
            newline_pieces(s@.take(i as int)).len() == res@.len() + 1,
            newline_pieces(s@.take(i as int)).last() == s@.subrange(start as int, i as int),
            forall|k: int|
                #![trigger res@[k]]
                0 <= k < res@.len() ==> {
                    &&& res@[k].0 <= res@[k].1 <= s@.len()
                    &&& s@.subrange(res@[k].0 as int, res@[k].1 as int) == strip_cr(
                        newline_pieces(s@.take(i as int))[k],
                    )
                },
        decreases s.len() - i,
    {
        let ghost before = newline_pieces(s@.take(i as int));
        let ghost old_res = res@;
        proof {
            assert(s@.take(i + 1).drop_last() =~= s@.take(i as int));
            assert(s@.take(i + 1).last() == s@[i as int]);
        }
        if s[i] == '\n' {
            let end = if i > start && s[i - 1] == '\r' { i - 1 } else { i };
            proof {
                let piece = s@.subrange(start as int, i as int);
                if i > start && s@[i - 1] == '\r' {
                    assert(piece.last() == s@[i - 1]);
                    assert(piece.drop_last() =~= s@.subrange(start as int, end as int));
                } else if piece.len() > 0 {
                    assert(piece.last() == s@[i - 1]);
                }
                assert(s@.subrange(start as int, end as int) == strip_cr(before.last()));
            }
            res.push((start, end));
            proof {
                let after = newline_pieces(s@.take(i + 1));
                assert(after == before.push(Seq::<char>::empty()));
                assert forall|k: int| #![trigger res@[k]] 0 <= k < res@.len() implies {
                    &&& res@[k].0 <= res@[k].1 <= s@.len()
                    &&& s@.subrange(res@[k].0 as int, res@[k].1 as int) == strip_cr(after[k])
                } by {
                    if k < old_res.len() {
                        assert(res@[k] == old_res[k]);
                        assert(after[k] == before[k]);
                    } else {
                        assert(after[k] == before.last());
                    }
                }
                assert(s@.subrange((i + 1) as int, (i + 1) as int) =~= Seq::<char>::empty());
                assert(after.last() == Seq::<char>::empty());
            }
            start = i + 1;
        } else {
            proof {
                let after = newline_pieces(s@.take(i + 1));
                assert(after == before.update(before.len() - 1, before.last().push(s@[i as int])));
                assert(s@.subrange(start as int, (i + 1) as int) =~= s@.subrange(
                    start as int,
                    i as int,
                ).push(s@[i as int]));
                assert forall|k: int| #![trigger res@[k]] 0 <= k < res@.len() implies {
                    &&& res@[k].0 <= res@[k].1 <= s@.len()
                    &&& s@.subrange(res@[k].0 as int, res@[k].1 as int) == strip_cr(after[k])
                } by {
                    assert(k < before.len() - 1);
                    assert(after[k] == before[k]);
                    assert(s@.subrange(res@[k].0 as int, res@[k].1 as int) == strip_cr(before[k]));
                }
            }
        }
        i += 1;
    }
    proof {
        assert(s@.take(s.len() as int) =~= s@);
    }
    let ghost p = newline_pieces(s@);
    let ghost full = res@;
    if start < s.len() {
        res.push((start, s.len()));
    }
    proof {
        let l = lines_of(s@);
        assert(p.len() == full.len() + 1);
        assert(p.last().len() == s.len() - start);
        assert forall|k: int| #![trigger res@[k]] 0 <= k < res@.len() implies {
            &&& res@[k].0 <= res@[k].1 <= s@.len()
            &&& s@.subrange(res@[k].0 as int, res@[k].1 as int) == l[k]
        } by {
            if k < full.len() {
                assert(res@[k] == full[k]);
                assert(l[k] == strip_cr(p[k]));
            } else {
                assert(l[k] == p[k]);
            }
        }
    }
    res
}

} // verus!
