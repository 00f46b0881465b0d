//! Position-tracked scanning primitives: source spans, span-tagged values and
//! a backtracking cursor over a sequence of elements.

use vstd::prelude::*;

verus! {

/// Half-open range `[start, end)` of element offsets into one source text.
///
/// A one-element span placed just past the end of the input is a legal
/// placeholder, used when a failure must point at missing input.
#[derive(Clone, Copy, Debug, PartialEq, Eq, Structural)]
pub struct Span {
    pub start: usize,
    pub end: usize,
}

/// The span covering both `a` and `b`, regardless of argument order.
pub open spec fn span_union(a: Span, b: Span) -> Span {
    Span {
        start: if a.start <= b.start {
            a.start
        } else {
            b.start
        },
        end: if a.end >= b.end {
            a.end
        } else {
            b.end
        },
    }
}

/// The covering span does not depend on the argument order.
pub proof fn lemma_span_union_symmetric(a: Span, b: Span)
    ensures
        span_union(a, b) == span_union(b, a),
{
}

/// Merge two spans into the smallest span covering both.
pub fn merge(a: &Span, b: &Span) -> (r: Span)
    ensures
        r == span_union(*a, *b),
{
    Span {
        start: if a.start <= b.start {
            a.start
        } else {
            b.start
        },
        end: if a.end >= b.end {
            a.end
        } else {
            b.end
        },
    }
}


/// Some call of `f` on the element `s[i]`, given the already-matched prefix
/// `s[start..i]`, may answer `b`.
pub open spec fn pred_outcome<T, F: Fn(T, &Vec<T>) -> bool>(
    f: F,
    s: Seq<T>,
    start: int,
    i: int,
    b: bool,
) -> bool {
    exists|v: Vec<T>| v@ == s.subrange(start, i) && #[trigger] call_ensures(f, (s[i], &v), b)
}

/// A value of type `T` tagged with the source span it came from.
#[derive(Clone, Debug)]
pub struct Spanned<T> {
    pub node: T,
    pub span: Span,
}

/// Outcome of a sub-parse: a span-tagged value, or a span-tagged failure.
pub type SpannedResult<T, E> = Result<Spanned<T>, Spanned<E>>;

impl<T> Spanned<T> {
    pub fn new(node: T, span: Span) -> (r: Spanned<T>)
        ensures
            r.node == node,
            r.span == span,
    {
        Spanned { node, span }
    }

    /// Transform the value while keeping its span.
    pub fn map<U, F: FnOnce(T) -> U>(self, f: F) -> (r: Spanned<U>)
        requires
            call_requires(f, (self.node,)),
        ensures
            r.span == self.span,
            call_ensures(f, (self.node,), r.node),
    {
        Spanned { node: f(self.node), span: self.span }
    }

    /// Transform the span while keeping the value.
    pub fn map_span<F: FnOnce(Span) -> Span>(self, f: F) -> (r: Spanned<T>)
        requires
            call_requires(f, (self.span,)),
        ensures
            r.node == self.node,
            call_ensures(f, (self.span,), r.span),
    {
        Spanned { node: self.node, span: f(self.span) }
    }

    /// Widen this value's span so that it also covers `other`.
    pub fn merge_with_span(self, other: Span) -> (r: Spanned<T>)
        ensures
            r.node == self.node,
            r.span == span_union(self.span, other),
    {
        let span = merge(&self.span, &other);
        Spanned { node: self.node, span }
    }

    /// Pair this value with another, under the span covering both.
    pub fn merge<E>(self, other: Spanned<E>) -> (r: Spanned<(T, E)>)
        ensures
            r.node == (self.node, other.node),
            r.span == span_union(self.span, other.span),
    {
        let span = merge(&self.span, &other.span);
        Spanned { node: (self.node, other.node), span }
    }
}

/// A scanning cursor over an input sequence: the input plus a position in
/// `[0, len]`.  The position only advances on consumption; backtracking
/// restores an exact saved position.
pub struct ParserCursor<T> {
    pub input: Vec<T>,
    pub pos: usize,
}

impl<T> ParserCursor<T> {
    /// The cursor's position stays inside `[0, len]`, and the input is short
    /// enough that a one-element span can be placed just past its end.
    pub open spec fn wf(self) -> bool {
        self.pos <= self.input@.len() && self.input@.len() < usize::MAX
    }

    pub fn new(input: Vec<T>) -> (r: ParserCursor<T>)
        requires
            input@.len() < usize::MAX,
        ensures
            r.input == input,
            r.pos == 0,
            r.wf(),
    {
        ParserCursor { input, pos: 0 }
    }

    pub fn is_eof(&self) -> (r: bool)
        ensures
            r == (self.pos >= self.input@.len()),
    {
        self.pos >= self.input.len()
    }

    pub fn position(&self) -> (r: usize)
        ensures
            r == self.pos,
    {
        self.pos
    }

    pub fn set_position(&mut self, pos: usize)
        requires
            old(self).wf(),
            pos <= old(self).input@.len(),
        ensures
            final(self).wf(),
            final(self).input == old(self).input,
            final(self).pos == pos,
    {
        self.pos = pos;
    }

    /// Advance over `n` elements that are known to be present.
    pub fn advance(&mut self, n: usize)
        requires
            old(self).wf(),
            old(self).pos + n <= old(self).input@.len(),
        ensures
            final(self).wf(),
            final(self).input == old(self).input,
            final(self).pos == old(self).pos + n,
    {
        self.pos = self.pos + n;
    }

    /// A one-element span at the current position, used when reporting that
    /// more input was expected.
    pub fn span(&self) -> (r: Span)
        requires
            self.wf(),
        ensures
            r.start == self.pos,
            r.end == self.pos + 1,
    {
        Span { start: self.pos, end: self.pos + 1 }
    }

    /// Run a sub-parse on the cursor; if it signals "no match" (`None`) the
    /// position is rolled back to where it was, so that partial progress is
    /// invisible to the caller.
    pub fn try_parse<E, F: FnOnce(Self) -> (Self, Option<Spanned<E>>)>(self, f: F) -> (r: (
        Self,
        Option<Spanned<E>>,
    ))
        requires
            call_requires(f, (self,)),
        ensures
            r.1 is Some ==> call_ensures(f, (self,), r),
            r.1 is None ==> r.0.pos == self.pos && exists|mid: Self|
                (#[trigger] call_ensures(f, (self,), (mid, r.1)) && r.0.input == mid.input),
    {
        let pos0 = self.pos;
        let ghost orig = self;
        let (mut c, out) = f(self);
        let ghost mid = c;
        if out.is_none() {
            c.pos = pos0;
        }
        proof {
            assert(call_ensures(f, (orig,), (mid, out)));
        }
        (c, out)
    }

    /// Run a sub-parse on the cursor; a failure rolls the position back to
    /// where it was, a success keeps the new position.  This is the sole
    /// backtracking primitive of the grammar layer.
    pub fn catch_parse<R, E, F: FnOnce(Self) -> (Self, SpannedResult<R, E>)>(self, f: F) -> (r: (
        Self,
        SpannedResult<R, E>,
    ))
        requires
            call_requires(f, (self,)),
        ensures
            r.1 is Ok ==> call_ensures(f, (self,), r),
            r.1 is Err ==> r.0.pos == self.pos && exists|mid: Self|
                (#[trigger] call_ensures(f, (self,), (mid, r.1)) && r.0.input == mid.input),
    {
        let pos0 = self.pos;
        let ghost orig = self;
        let (mut c, out) = f(self);
        let ghost mid = c;
        if out.is_err() {
            c.pos = pos0;
        }
        proof {
            assert(call_ensures(f, (orig,), (mid, out)));
        }
        (c, out)
    }
}

impl<T: Copy> ParserCursor<T> {
    /// Look at the current element without consuming it.
    pub fn peek(&self) -> (r: Option<Spanned<T>>)
        ensures
            self.pos < self.input@.len() ==> (r matches Some(sp)
                && sp.node == self.input@[self.pos as int]
                && sp.span.start == self.pos && sp.span.end == self.pos + 1),
            self.pos >= self.input@.len() ==> r is None,
    {
        if self.pos < self.input.len() {
            Some(Spanned { node: self.input[self.pos], span: Span { start: self.pos, end: self.pos + 1 } })
        } else {
            None
        }
    }

    /// Consume and return the current element.
    pub fn next(&mut self) -> (r: Option<Spanned<T>>)
        requires
            old(self).wf(),
        ensures
            final(self).wf(),
            final(self).input == old(self).input,
            old(self).pos < old(self).input@.len() ==> (r matches Some(sp)
                && sp.node == old(self).input@[old(self).pos as int]
                && sp.span.start == old(self).pos && sp.span.end == old(self).pos + 1
                && final(self).pos == old(self).pos + 1),
            old(self).pos >= old(self).input@.len() ==> (r is None
                && final(self).pos == old(self).pos),
    {
        let c = self.peek();
        if c.is_some() {
            self.pos = self.pos + 1;
        }
        c
    }

    /// Inspect, without consuming, the maximal run of elements on which `f`
    /// answers true.  `f` receives the current element and the run matched so
    /// far, which enables stateful predicates; it never sees an element past
    /// the end of the input.
    pub fn peek_while<F: Fn(T, &Vec<T>) -> bool>(&self, f: F) -> (r: Spanned<Vec<T>>)
        requires
            self.wf(),
            forall|c: T, v: Vec<T>| call_requires(f, (c, &v)),
        ensures
            r.span.start == self.pos,
            self.pos <= r.span.end <= self.input@.len(),
            r.node@ == self.input@.subrange(self.pos as int, r.span.end as int),
            forall|i: int|
                self.pos <= i < r.span.end ==> #[trigger] pred_outcome(f, self.input@, self.pos as int, i, true),
            r.span.end < self.input@.len() ==> pred_outcome(f, self.input@, self.pos as int, r.span.end as int, false),
    {
        let start = self.pos;
        let mut run: Vec<T> = Vec::new();
        let mut end = self.pos;
        let mut done = false;
        while !done
            invariant
                self.wf(),
                start == self.pos,
                start <= end <= self.input@.len(),
                run@ == self.input@.subrange(start as int, end as int),
                forall|c: T, v: Vec<T>| call_requires(f, (c, &v)),
                forall|i: int|
                    start <= i < end ==> #[trigger] pred_outcome(f, self.input@, start as int, i, true),
                done && end < self.input@.len() ==> pred_outcome(f, self.input@, start as int, end as int, false),
            decreases self.input@.len() - end + (if done {
                0int
            } else {
                1int
            }),
        {
            if end < self.input.len() {
                let c = self.input[end];
                if f(c, &run) {
                    run.push(c);
                    assert(run@ == self.input@.subrange(start as int, end + 1));
                    end = end + 1;
                } else {
                    done = true;
                }
            } else {
                done = true;
            }
        }
        Spanned { node: run, span: Span { start, end } }
    }

    /// Consume the maximal run of elements on which `f` answers true.
    pub fn take_while<F: Fn(T, &Vec<T>) -> bool>(&mut self, f: F) -> (r: Spanned<Vec<T>>)
        requires
            old(self).wf(),
            forall|c: T, v: Vec<T>| call_requires(f, (c, &v)),
        ensures
            final(self).wf(),
            final(self).input == old(self).input,
            final(self).pos == r.span.end,
            r.span.start == old(self).pos,
            old(self).pos <= r.span.end <= old(self).input@.len(),
            r.node@ == old(self).input@.subrange(old(self).pos as int, r.span.end as int),
            forall|i: int|
                old(self).pos <= i < r.span.end ==> #[trigger] pred_outcome(f, old(self).input@, old(self).pos as int, i, true),
            r.span.end < old(self).input@.len() ==> pred_outcome(f, old(self).input@, old(self).pos as int, r.span.end as int, false),
    {
        let r = self.peek_while(f);
        self.pos = r.span.end;
        r
    }

    /// Inspect, without consuming, the run of elements up to (and excluding)
    /// the first one on which `f` answers true.
    pub fn peek_until<F: Fn(T, &Vec<T>) -> bool>(&self, f: F) -> (r: Spanned<Vec<T>>)
        requires
            self.wf(),
            forall|c: T, v: Vec<T>| call_requires(f, (c, &v)),
        ensures
            r.span.start == self.pos,
            self.pos <= r.span.end <= self.input@.len(),
            r.node@ == self.input@.subrange(self.pos as int, r.span.end as int),
            forall|i: int|
                self.pos <= i < r.span.end ==> #[trigger] pred_outcome(f, self.input@, self.pos as int, i, false),
            r.span.end < self.input@.len() ==> pred_outcome(f, self.input@, self.pos as int, r.span.end as int, true),
    {
        let start = self.pos;
        let mut run: Vec<T> = Vec::new();
        let mut end = self.pos;
        let mut done = false;
        while !done
            invariant
                self.wf(),
                start == self.pos,
                start <= end <= self.input@.len(),
                run@ == self.input@.subrange(start as int, end as int),
                forall|c: T, v: Vec<T>| call_requires(f, (c, &v)),
                forall|i: int|
                    start <= i < end ==> #[trigger] pred_outcome(f, self.input@, start as int, i, false),
                done && end < self.input@.len() ==> pred_outcome(f, self.input@, start as int, end as int, true),
            decreases self.input@.len() - end + (if done {
                0int
            } else {
                1int
            }),
        {
            if end < self.input.len() {
                let c = self.input[end];
                if !f(c, &run) {
                    run.push(c);
                    assert(run@ == self.input@.subrange(start as int, end + 1));
                    end = end + 1;
                } else {
                    done = true;
                }
            } else {
                done = true;
            }
        }
        Spanned { node: run, span: Span { start, end } }
    }

    /// Consume the run of elements up to (and excluding) the first one on
    /// which `f` answers true.
    pub fn take_until<F: Fn(T, &Vec<T>) -> bool>(&mut self, f: F) -> (r: Spanned<Vec<T>>)
        requires
            old(self).wf(),
            forall|c: T, v: Vec<T>| call_requires(f, (c, &v)),
        ensures
            final(self).wf(),
            final(self).input == old(self).input,
            final(self).pos == r.span.end,
            r.span.start == old(self).pos,
            old(self).pos <= r.span.end <= old(self).input@.len(),
            r.node@ == old(self).input@.subrange(old(self).pos as int, r.span.end as int),
            forall|i: int|
                old(self).pos <= i < r.span.end ==> #[trigger] pred_outcome(f, old(self).input@, old(self).pos as int, i, false),
            r.span.end < old(self).input@.len() ==> pred_outcome(f, old(self).input@, old(self).pos as int, r.span.end as int, true),
    {
        let r = self.peek_until(f);
        self.pos = r.span.end;
        r
    }

    /// Consume exactly `n` elements, or fail without consuming any.
    pub fn take(&mut self, n: usize) -> (r: Option<Spanned<Vec<T>>>)
        requires
            old(self).wf(),
        ensures
            final(self).wf(),
            final(self).input == old(self).input,
            old(self).pos + n <= old(self).input@.len() ==> (r matches Some(sp)
                && sp.node@ == old(self).input@.subrange(old(self).pos as int, old(self).pos + n)
                && sp.span.start == old(self).pos && sp.span.end == old(self).pos + n
                && final(self).pos == old(self).pos + n),
            old(self).pos + n > old(self).input@.len() ==> (r is None
                && final(self).pos == old(self).pos),
    {
        if n <= self.input.len() - self.pos {
            let start = self.pos;
            let end = start + n;
            let mut taken: Vec<T> = Vec::new();
            let mut i = start;
            while i < end
                invariant
                    start <= i <= end,
                    end <= self.input@.len(),
                    taken@ == self.input@.subrange(start as int, i as int),
                decreases end - i,
            {
                taken.push(self.input[i]);
                assert(taken@ == self.input@.subrange(start as int, i + 1));
                i = i + 1;
            }
            self.pos = end;
            Some(Spanned { node: taken, span: Span { start, end } })
        } else {
            None
        }
    }
}

} // verus!
