//! Spans of located directives and the offset arithmetic that keeps them
//! valid while the surrounding string is edited.

use vstd::prelude::*;

use crate::args::{
    ArgModel, ArgValue, args_model, lemma_args_model_push, lemma_pairs_model_push, pairs_model,
};

verus! {

/// A half-open range `[start, end)` of character positions into a string.
#[derive(Clone, Copy, Debug, PartialEq, Eq, Structural)]
pub struct Span {
    pub start: usize,
    pub end: usize,
}

impl Span {
    /// A span is well formed when it does not end before it starts.
    pub open spec fn wf(self) -> bool {
        self.start <= self.end
    }

    pub fn new(start: usize, end: usize) -> (r: Span)
        ensures
            r.start == start,
            r.end == end,
    {
        Span { start, end }
    }

    /// The number of positions the span covers.
    pub open spec fn spec_len(self) -> int {
        self.end - self.start
    }
}

/// Shifts `span` by `translation`, to the right when `do_shift_right` is set
/// and to the left otherwise.  A left shift that would move the start of the
/// span below zero yields `None`, since positions cannot be negative.
pub fn range_shift(span: &Span, translation: usize, do_shift_right: bool) -> (r: Option<Span>)
    requires
        span.wf(),
        do_shift_right ==> span.end + translation <= usize::MAX,
    ensures
        r matches Some(shifted) ==> shifted.wf(),
        do_shift_right ==> r == Some(
            Span { start: (span.start + translation) as usize, end: (span.end + translation) as usize },
        ),
        !do_shift_right && span.start >= translation ==> r == Some(
            Span { start: (span.start - translation) as usize, end: (span.end - translation) as usize },
        ),
        !do_shift_right && span.start < translation ==> r is None,
{
    if !do_shift_right {
        if span.start < translation {
            return None;
        }
        Some(Span { start: span.start - translation, end: span.end - translation })
    } else {
        Some(Span { start: span.start + translation, end: span.end + translation })
    }
}

/// The possible positions a single point can take relative to a span.
#[derive(Clone, Copy, Debug, PartialEq, Eq, Structural)]
pub enum RangeToPositionRelation {
    /// The position lies before the span.
    Before,
    /// The position lies within the span.
    Within,
    /// The position lies at or past the end of the span.
    After,
}

/// Where `position` falls relative to the well-formed span `[start, end)`.
pub open spec fn spec_relation(span: Span, position: int) -> RangeToPositionRelation {
    if position < span.start {
        RangeToPositionRelation::Before
    } else if position >= span.end {
        RangeToPositionRelation::After
    } else {
        RangeToPositionRelation::Within
    }
}

/// The mathematical value of a [`Span`]: its two endpoints, unbounded.
#[verifier::ext_equal]
pub ghost struct SpanModel {
    pub start: int,
    pub end: int,
}

impl View for Span {
    type V = SpanModel;

    open spec fn view(&self) -> SpanModel {
        SpanModel { start: self.start as int, end: self.end as int }
    }
}

/// The mathematical value of a located directive: its name, its argument
/// mapping in parse order, the placeholder span in the rewritten string, and
/// the captured body text of a body-carrying directive.
#[verifier::ext_equal]
pub ghost struct ContextModel {
    pub name: Seq<char>,
    pub args: Seq<(Seq<char>, ArgModel)>,
    pub span: SpanModel,
    pub body: Option<Seq<char>>,
}

/// One located directive occurrence: its name, its parsed arguments, the
/// span of its placeholder within the rewritten output string, and, for a
/// body-carrying directive, its raw inner text from the original source.
#[derive(Debug, PartialEq)]
pub struct ShortcodeContext {
    pub name: String,
    pub args: Vec<(String, ArgValue)>,
    pub span: Span,
    pub body: Option<String>,
}

impl View for ShortcodeContext {
    type V = ContextModel;

    open spec fn view(&self) -> ContextModel {
        ContextModel {
            name: self.name@,
            args: args_model(self.args@),
            span: self.span@,
            body: if self.body is Some {
                Some(self.body.unwrap()@)
            } else {
                None
            },
        }
    }
}

impl ShortcodeContext {
    /// Builds a descriptor from its parts.  The argument names must be
    /// pairwise distinct, as they are in any parsed directive.
    pub fn new(
        name: &str,
        args_vec: Vec<(&str, ArgValue)>,
        span: Span,
        body: Option<String>,
    ) -> (r: ShortcodeContext)
        requires
            forall|p: int, q: int|
                0 <= p < q < args_vec@.len() ==> args_vec@[p].0@ != args_vec@[q].0@,
        ensures
            r@.name == name@,
            r@.args == pairs_model(args_vec@),
            r@.span == span@,
            r@.body == match body {
                Some(b) => Some(b@),
                None => None::<Seq<char>>,
            },
    {
        let ghost orig = args_vec@;
        let mut rest = args_vec;
        let mut args: Vec<(String, ArgValue)> = Vec::new();
        proof {
            assert(args_model(args@) == Seq::<(Seq<char>, ArgModel)>::empty());
            assert(pairs_model(Seq::<(&str, ArgValue)>::empty()) == Seq::<(Seq<char>, ArgModel)>::empty());
            assert(orig.take(0) =~= Seq::<(&str, ArgValue)>::empty());
            assert(orig.skip(0) =~= orig);
        }
        let ghost t: int = 0;
        while rest.len() > 0
            invariant
                0 <= t <= orig.len(),
                rest@ =~= orig.skip(t),
                args_model(args@) == pairs_model(orig.take(t)),
            decreases rest@.len(),
        {
            let (k, v) = rest.remove(0);
            proof {
                assert(orig.skip(t).len() > 0);
                assert((k, v) == orig[t]);
            }
            let ks = k.to_owned();
            proof {
                lemma_args_model_push(args@, ks, v);
                lemma_pairs_model_push(orig.take(t), k, v);
                assert(orig.take(t).push(orig[t]) =~= orig.take(t + 1));
                assert(orig.skip(t).remove(0) =~= orig.skip(t + 1));
            }
            args.push((ks, v));
            proof {
                t = t + 1;
            }
        }
        proof {
            assert(orig.take(t) =~= orig);
        }
        ShortcodeContext { name: name.to_owned(), args, span, body }
    }

    /// The name of the directive.
    pub fn name(&self) -> (r: &String)
        ensures
            r@ == self@.name,
    {
        &self.name
    }

    /// The parsed arguments of the directive, in parse order.
    pub fn args(&self) -> (r: &Vec<(String, ArgValue)>)
        ensures
            args_model(r@) == self@.args,
    {
        &self.args
    }

    /// The raw inner text of a body-carrying directive, `None` for a
    /// self-closing one.
    pub fn body(&self) -> (r: Option<&String>)
        ensures
            match r {
                Some(b) => self@.body == Some(b@),
                None => self@.body is None,
            },
    {
        self.body.as_ref()
    }

    /// The span of the directive's placeholder within the rewritten string.
    pub fn span(&self) -> (r: &Span)
        ensures
            r@ == self@.span,
    {
        &self.span
    }

    /// Moves the span by `translation`, to the right when `do_shift_right`
    /// is set and to the left otherwise.
    fn shift_span(&mut self, translation: usize, do_shift_right: bool)
        requires
            old(self).span.wf(),
            do_shift_right ==> old(self).span.end + translation <= usize::MAX,
            !do_shift_right ==> translation <= old(self).span.start,
        ensures
            final(self).name == old(self).name,
            final(self).args == old(self).args,
            final(self).body == old(self).body,
            do_shift_right ==> final(self)@.span == (SpanModel {
                start: old(self)@.span.start + translation,
                end: old(self)@.span.end + translation,
            }),
            !do_shift_right ==> final(self)@.span == (SpanModel {
                start: old(self)@.span.start - translation,
                end: old(self)@.span.end - translation,
            }),
    {
        match range_shift(&self.span, translation, do_shift_right) {
            Some(shifted) => {
                self.span = shifted;
            },
            None => {
                proof {
                    assert(false);
                }
            },
        }
    }

    /// Where `position` falls relative to this directive's span.
    fn get_range_relation(&self, position: usize) -> (r: RangeToPositionRelation)
        requires
            self.span.wf(),
        ensures
            r == spec_relation(self.span, position as int),
    {
        if position < self.span.start {
            RangeToPositionRelation::Before
        } else if position >= self.span.end {
            RangeToPositionRelation::After
        } else {
            RangeToPositionRelation::Within
        }
    }

    /// Re-anchors the recorded span after an edit elsewhere in the string:
    /// an edit that replaced `original_length` positions by `new_length`
    /// positions wholly before the span moves the span by the difference;
    /// an edit within or after the span leaves it untouched.
    pub fn update_on_source_insert(
        &mut self,
        position: usize,
        original_length: usize,
        new_length: usize,
    )
        requires
            old(self)@.span.start <= old(self)@.span.end,
            position < old(self)@.span.start && original_length < new_length
                ==> old(self)@.span.end + (new_length - original_length) <= usize::MAX,
            position < old(self)@.span.start && new_length < original_length
                ==> original_length - new_length <= old(self)@.span.start,
        ensures
            final(self)@.name == old(self)@.name,
            final(self)@.args == old(self)@.args,
            final(self)@.body == old(self)@.body,
            position < old(self)@.span.start ==> final(self)@.span == (SpanModel {
                start: old(self)@.span.start + new_length - original_length,
                end: old(self)@.span.end + new_length - original_length,
            }),
            position >= old(self)@.span.start ==> final(self)@.span == old(self)@.span,
    {
        let delta = if original_length < new_length {
            new_length - original_length
        } else {
            original_length - new_length
        };

        match self.get_range_relation(position) {
            RangeToPositionRelation::Before => {
                if delta > 0 {
                    self.shift_span(delta, original_length < new_length);
                }
            },
            RangeToPositionRelation::After | RangeToPositionRelation::Within => {},
        }
    }
}

} // verus!
