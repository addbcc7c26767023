//! Splitting text at a separator character, optionally honouring a quote
//! character that hides separators inside a field.
use vstd::prelude::*;

verus! {

/// The character that opens and closes a quoted field.
pub const QUOTE: char = '"';

/// What a scan over a prefix of the text has collected so far.
pub struct SplitState {
    /// Fields already closed by a separator.
    pub done: Seq<Seq<char>>,
    /// The field being read.
    pub cur: Seq<char>,
    /// Inside a quoted stretch.
    pub quoted: bool,
    /// The previous character closed a quoted stretch.
    pub closed: bool,
}

pub open spec fn split_start() -> SplitState {
    SplitState { done: Seq::empty(), cur: Seq::empty(), quoted: false, closed: false }
}

/// One character of the scan. With quoting on, a quote character toggles the
/// quoted stretch and is not part of the field, except that a quote right
/// after a closing quote stands for one literal quote. A separator outside a
/// quoted stretch closes the field.
pub open spec fn split_step(st: SplitState, c: char, sep: char, quoting: bool) -> SplitState {
    if quoting && c == QUOTE {
        if st.quoted {
            SplitState { done: st.done, cur: st.cur, quoted: false, closed: true }
        } else if st.closed {
            SplitState { done: st.done, cur: st.cur.push(QUOTE), quoted: true, closed: false }
        } else {
            SplitState { done: st.done, cur: st.cur, quoted: true, closed: false }
        }
    } else if c == sep && !st.quoted {
        SplitState { done: st.done.push(st.cur), cur: Seq::empty(), quoted: false, closed: false }
    } else {
        SplitState { done: st.done, cur: st.cur.push(c), quoted: st.quoted, closed: false }
    }
}

pub open spec fn split_run(st: SplitState, s: Seq<char>, sep: char, quoting: bool) -> SplitState
    decreases s.len(),
{
    if s.len() == 0 {
        st
    } else {
        split_run(split_step(st, s[0], sep, quoting), s.drop_first(), sep, quoting)
    }
}

/// The fields of `s`: always at least one, the last one being what follows the
/// last separator.
pub open spec fn split_text(s: Seq<char>, sep: char, quoting: bool) -> Seq<Seq<char>> {
    let st = split_run(split_start(), s, sep, quoting);
    st.done.push(st.cur)
}

/// The parts written one after the other with `sep` between each two.
pub open spec fn join_with(parts: Seq<Seq<char>>, sep: char) -> Seq<char>
    decreases parts.len(),
{
    if parts.len() == 0 {
        Seq::empty()
    } else if parts.len() == 1 {
        parts[0]
    } else {
        parts[0] + seq![sep] + join_with(parts.drop_first(), sep)
    }
}

/// `p` holds no separator and, where quoting is on, no quote.
pub open spec fn plain(p: Seq<char>, sep: char, quoting: bool) -> bool {
    forall|i: int| 0 <= i < p.len() ==> p[i] != sep && !(quoting && p[i] == QUOTE)
}

pub open spec fn at_rest(done: Seq<Seq<char>>, cur: Seq<char>) -> SplitState {
    SplitState { done, cur, quoted: false, closed: false }
}

proof fn lemma_run_append(st: SplitState, x: Seq<char>, y: Seq<char>, sep: char, quoting: bool)
    ensures
        split_run(st, x + y, sep, quoting) == split_run(split_run(st, x, sep, quoting), y, sep, quoting),
    decreases x.len(),
{
    if x.len() == 0 {
        assert(x + y =~= y);
    } else {
        assert((x + y).drop_first() =~= x.drop_first() + y);
        assert((x + y)[0] == x[0]);
        lemma_run_append(split_step(st, x[0], sep, quoting), x.drop_first(), y, sep, quoting);
    }
}

proof fn lemma_run_plain(done: Seq<Seq<char>>, cur: Seq<char>, p: Seq<char>, sep: char, quoting: bool)
    requires
        plain(p, sep, quoting),
    ensures
        split_run(at_rest(done, cur), p, sep, quoting) == at_rest(done, cur + p),
    decreases p.len(),
{
    if p.len() == 0 {
        assert(cur + p =~= cur);
    } else {
        assert(plain(p.drop_first(), sep, quoting));
        lemma_run_plain(done, cur.push(p[0]), p.drop_first(), sep, quoting);
        assert(cur.push(p[0]) + p.drop_first() =~= cur + p);
    }
}

proof fn lemma_run_join(done: Seq<Seq<char>>, parts: Seq<Seq<char>>, sep: char, quoting: bool)
    requires
        parts.len() >= 1,
        !(quoting && sep == QUOTE),
        forall|i: int| 0 <= i < parts.len() ==> plain(#[trigger] parts[i], sep, quoting),
    ensures
        split_run(at_rest(done, Seq::empty()), join_with(parts, sep), sep, quoting) == at_rest(
            done + parts.drop_last(),
            parts.last(),
        ),
    decreases parts.len(),
{
    let e = Seq::<char>::empty();
    lemma_run_plain(done, e, parts[0], sep, quoting);
    assert(e + parts[0] =~= parts[0]);
    if parts.len() == 1 {
        assert(done + parts.drop_last() =~= done);
    } else {
        let rest = parts.drop_first();
        let j = join_with(rest, sep);
        let st0 = at_rest(done, e);
        lemma_run_append(st0, parts[0] + seq![sep], j, sep, quoting);
        lemma_run_append(st0, parts[0], seq![sep], sep, quoting);
        assert(seq![sep].drop_first() =~= e);
        assert(seq![sep][0] == sep);
        let st1 = at_rest(done, parts[0]);
        assert(split_step(st1, sep, sep, quoting) =~= at_rest(done.push(parts[0]), e));
        assert(split_run(split_step(st1, sep, sep, quoting), e, sep, quoting) == split_step(
            st1,
            sep,
            sep,
            quoting,
        ));
        assert(split_run(at_rest(done, parts[0]), seq![sep], sep, quoting) == at_rest(
            done.push(parts[0]),
            e,
        ));
        assert forall|i: int| 0 <= i < rest.len() implies plain(#[trigger] rest[i], sep, quoting) by {
            assert(rest[i] == parts[i + 1]);
        }
        lemma_run_join(done.push(parts[0]), rest, sep, quoting);
        assert(done.push(parts[0]) + rest.drop_last() =~= done + parts.drop_last());
    }
}

/// Splitting what was joined at a separator gives the parts back, where no
/// part holds the separator nor, with quoting on, a quote.
pub proof fn lemma_split_join(parts: Seq<Seq<char>>, sep: char, quoting: bool)
    requires
        parts.len() >= 1,
        !(quoting && sep == QUOTE),
        forall|i: int| 0 <= i < parts.len() ==> plain(#[trigger] parts[i], sep, quoting),
    ensures
        split_text(join_with(parts, sep), sep, quoting) == parts,
{
    lemma_run_join(Seq::empty(), parts, sep, quoting);
    assert(Seq::<Seq<char>>::empty() + parts.drop_last() =~= parts.drop_last());
    assert(parts.drop_last().push(parts.last()) =~= parts);
}

/// A character that is neither the separator nor in any part is not in the
/// joined text; two parts or more join to a non-empty text.
pub proof fn lemma_join_chars(parts: Seq<Seq<char>>, sep: char, c: char)
    requires
        c != sep,
        forall|i: int, k: int| 0 <= i < parts.len() && 0 <= k < parts[i].len() ==> #[trigger] parts[i][k] != c,
    ensures
        forall|k: int| 0 <= k < join_with(parts, sep).len() ==> #[trigger] join_with(parts, sep)[k] != c,
        parts.len() >= 2 ==> join_with(parts, sep).len() > 0,
    decreases parts.len(),
{
    if parts.len() >= 2 {
        let rest = parts.drop_first();
        assert forall|i: int, k: int| 0 <= i < rest.len() && 0 <= k < rest[i].len() implies #[trigger] rest[i][k] != c by {
            assert(rest[i] == parts[i + 1]);
        }
        lemma_join_chars(rest, sep, c);
        let j = join_with(parts, sep);
        let p0 = parts[0];
        assert forall|k: int| 0 <= k < j.len() implies #[trigger] j[k] != c by {
            if k < p0.len() {
                assert(j[k] == parts[0][k]);
            } else if k > p0.len() {
                assert(j[k] == join_with(rest, sep)[k - p0.len() - 1]);
            }
        }
    } else if parts.len() == 1 {
        assert forall|k: int| 0 <= k < join_with(parts, sep).len() implies #[trigger] join_with(parts, sep)[k] != c by {
            assert(join_with(parts, sep)[k] == parts[0][k]);
        }
    }
}

pub open spec fn chars_of(v: Seq<Vec<char>>) -> Seq<Seq<char>> {
    v.map_values(|x: Vec<char>| x@)
}

/// Splits `s` into its fields at `sep`, as `split_text` describes.
pub fn split_fields(s: &Vec<char>, sep: char, quoting: bool) -> (r: Vec<Vec<char>>)
    ensures
        chars_of(r@) == split_text(s@, sep, quoting),
{
    let mut done: Vec<Vec<char>> = Vec::new();
    let mut cur: Vec<char> = Vec::new();
    let mut quoted = false;
    let mut closed = false;
    let mut i: usize = 0;
    assert(s@.subrange(0, s@.len() as int) =~= s@);
    assert(chars_of(done@) =~= Seq::<Seq<char>>::empty());
    assert(cur@ =~= Seq::<char>::empty());
    while i < s.len()
        invariant
            i <= s.len(),
            split_run(
                SplitState { done: chars_of(done@), cur: cur@, quoted, closed },
                s@.subrange(i as int, s@.len() as int),
                sep,
                quoting,
            ) == split_run(split_start(), s@, sep, quoting),
        decreases s.len() - i,
    {
        let c = s[i];
        let ghost before = SplitState { done: chars_of(done@), cur: cur@, quoted, closed };
        assert(s@.subrange(i as int, s@.len() as int).drop_first() =~= s@.subrange(
            i + 1,
            s@.len() as int,
        ));
        if quoting && c == QUOTE {
            if quoted {
                quoted = false;
                closed = true;
            } else if closed {
                cur.push(QUOTE);
                quoted = true;
                closed = false;
            } else {
                quoted = true;
            }
        } else if c == sep && !quoted {
            let field = cur;
            cur = Vec::new();
            done.push(field);
            closed = false;
            assert(chars_of(done@) =~= before.done.push(before.cur));
        } else {
            cur.push(c);
            closed = false;
        }
        assert(SplitState { done: chars_of(done@), cur: cur@, quoted, closed } == split_step(
            before,
            c,
            sep,
            quoting,
        ));
        i = i + 1;
    }
    let ghost last = SplitState { done: chars_of(done@), cur: cur@, quoted, closed };
    assert(s@.subrange(i as int, s@.len() as int) =~= Seq::<char>::empty());
    done.push(cur);
    assert(chars_of(done@) =~= last.done.push(last.cur));
    done
}

} // verus!
