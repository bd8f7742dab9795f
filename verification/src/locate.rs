//! The directive locator: scans a source string left to right, parses every
//! top-level directive occurrence, rewrites each into a fixed-width
//! placeholder, and hands back the rewritten string together with the ordered
//! descriptors.
//!
//! The whole scan is defined once as a specification function over the
//! character sequence ([`sp_locate`]); the executable [`fetch_shortcodes`] is
//! proved to return exactly its value.  The scan carries a step budget that
//! shrinks by one each step while the position advances by at least one, so a
//! budget of one more than the input length never runs out.

use vstd::prelude::*;

use crate::args::{args_model, ArgModel, ArgValue};
use crate::parse::{ContextModel, ShortcodeContext, Span, SpanModel};
use crate::tag::{parse_tag, sp_tag, tag_fuel, ws_end, ws_end_exec};

verus! {

/// The fixed placeholder written in place of every located directive.
pub open spec fn placeholder() -> Seq<char> {
    "{{SC()}}"@
}

/// The fixed placeholder as a string slice.
pub fn shortcode_placeholder() -> (r: &'static str)
    ensures
        r@ == placeholder(),
{
    "{{SC()}}"
}

/// The placeholder is eight characters wide.
pub proof fn lemma_placeholder_len()
    ensures
        placeholder().len() == 8,
{
    reveal_strlit("{{SC()}}");
}

/// An end marker at `i`: `{%`, optional whitespace, `end` in any case,
/// optional whitespace, `%}`.  Yields the position just after the marker.
pub open spec fn end_marker_end(s: Seq<char>, i: int) -> Option<int> {
    if 0 <= i && i + 2 <= s.len() && s[i] == '{' && s[i + 1] == '%' {
        let j = ws_end(s, i + 2);
        if j + 3 <= s.len() && (s[j] == 'e' || s[j] == 'E') && (s[j + 1] == 'n' || s[j + 1] == 'N')
            && (s[j + 2] == 'd' || s[j + 2] == 'D') {
            let k = ws_end(s, j + 3);
            if k + 2 <= s.len() && s[k] == '%' && s[k + 1] == '}' {
                Some(k + 2)
            } else {
                None
            }
        } else {
            None
        }
    } else {
        None
    }
}

/// A body opener at `i`: `{%` followed by optional whitespace.  Yields the
/// position just after the consumed whitespace.
pub open spec fn body_open_end(s: Seq<char>, i: int) -> Option<int> {
    if 0 <= i && i + 2 <= s.len() && s[i] == '{' && s[i + 1] == '%' {
        Some(ws_end(s, i + 2))
    } else {
        None
    }
}

/// A normal opener at `i`: `{{` followed by optional whitespace.
pub open spec fn normal_open_end(s: Seq<char>, i: int) -> Option<int> {
    if 0 <= i && i + 2 <= s.len() && s[i] == '{' && s[i + 1] == '{' {
        Some(ws_end(s, i + 2))
    } else {
        None
    }
}

/// The closing delimiter reached from `i`: optional whitespace, then either
/// `%}` (body closer, `true`) or `}}` (normal closer, `false`).  Anything
/// else is no closer at all and aborts the directive attempt.
pub open spec fn closer_at(s: Seq<char>, i: int) -> Option<(bool, int)> {
    let j = ws_end(s, i);
    if 0 <= j && j + 2 <= s.len() && s[j] == '%' && s[j + 1] == '}' {
        Some((true, j + 2))
    } else if 0 <= j && j + 2 <= s.len() && s[j] == '}' && s[j + 1] == '}' {
        Some((false, j + 2))
    } else {
        None
    }
}

/// The open body-carrying directive the scan is currently inside, if any:
/// its name and arguments, the placeholder span already written for it, and
/// the source position where its body text begins.
#[verifier::ext_equal]
pub ghost struct FrameModel {
    pub name: Seq<char>,
    pub args: Seq<(Seq<char>, ArgModel)>,
    pub openblock_span: SpanModel,
    pub body_start: int,
}

/// The locator's full state between two scan steps.  All positions count
/// characters: `pos` and `copied` into the source, spans into the output.
#[verifier::ext_equal]
pub ghost struct ScanState {
    /// The next position the tokenizer examines.
    pub pos: int,
    /// Everything before this position is already accounted for in `out`.
    pub copied: int,
    /// The rewritten output accumulated so far.
    pub out: Seq<char>,
    /// The descriptors emitted so far, in order.
    pub found: Seq<ContextModel>,
    /// The active body-carrying directive, if the scan is inside one.
    pub frame: Option<FrameModel>,
}

/// The state the scan starts from.
pub open spec fn init_state() -> ScanState {
    ScanState { pos: 0, copied: 0, out: Seq::empty(), found: Seq::empty(), frame: None }
}

/// One scan step at `st.pos`.  In precedence order: an end marker closes the
/// active frame (or is skipped when none is open); any opener seen inside an
/// active body is opaque and skipped; a top-level opener is parsed, and on a
/// matching closer a placeholder is written while a mismatch or parse
/// failure leaves the opener as literal text; any other character is plain
/// text.
pub open spec fn sp_step(s: Seq<char>, st: ScanState) -> ScanState {
    match end_marker_end(s, st.pos) {
        Some(e) => match st.frame {
            Some(f) => ScanState {
                pos: e,
                copied: e,
                out: st.out,
                found: st.found.push(
                    ContextModel {
                        name: f.name,
                        args: f.args,
                        span: f.openblock_span,
                        body: Some(s.subrange(f.body_start, st.pos)),
                    },
                ),
                frame: None,
            },
            None => ScanState { pos: e, copied: st.copied, out: st.out, found: st.found, frame: None },
        },
        None => match body_open_end(s, st.pos) {
            Some(tok_end) => {
                if st.frame is Some {
                    ScanState { pos: tok_end, ..st }
                } else {
                    let copied_out = st.out + s.subrange(st.copied, st.pos);
                    match sp_tag(s, tok_end, tag_fuel(s)) {
                        Some((name, args, after)) => match closer_at(s, after) {
                            Some((true, cend)) => ScanState {
                                pos: cend,
                                copied: cend,
                                out: copied_out + placeholder(),
                                found: st.found,
                                frame: Some(
                                    FrameModel {
                                        name: name,
                                        args: args,
                                        openblock_span: SpanModel {
                                            start: copied_out.len() as int,
                                            end: (copied_out.len() + placeholder().len()) as int,
                                        },
                                        body_start: cend,
                                    },
                                ),
                            },
                            _ => ScanState {
                                pos: tok_end,
                                copied: st.pos,
                                out: copied_out,
                                found: st.found,
                                frame: None,
                            },
                        },
                        None => ScanState {
                            pos: tok_end,
                            copied: st.pos,
                            out: copied_out,
                            found: st.found,
                            frame: None,
                        },
                    }
                }
            },
            None => match normal_open_end(s, st.pos) {
                Some(tok_end) => {
                    if st.frame is Some {
                        ScanState { pos: tok_end, ..st }
                    } else {
                        let copied_out = st.out + s.subrange(st.copied, st.pos);
                        match sp_tag(s, tok_end, tag_fuel(s)) {
                            Some((name, args, after)) => match closer_at(s, after) {
                                Some((false, cend)) => ScanState {
                                    pos: cend,
                                    copied: cend,
                                    out: copied_out + placeholder(),
                                    found: st.found.push(
                                        ContextModel {
                                            name: name,
                                            args: args,
                                            span: SpanModel {
                                                start: copied_out.len() as int,
                                                end: (copied_out.len() + placeholder().len()) as int,
                                            },
                                            body: None,
                                        },
                                    ),
                                    frame: None,
                                },
                                _ => ScanState {
                                    pos: tok_end,
                                    copied: st.pos,
                                    out: copied_out,
                                    found: st.found,
                                    frame: None,
                                },
                            },
                            None => ScanState {
                                pos: tok_end,
                                copied: st.pos,
                                out: copied_out,
                                found: st.found,
                                frame: None,
                            },
                        }
                    }
                },
                None => ScanState { pos: st.pos + 1, ..st },
            },
        },
    }
}

/// Runs the scan until the position leaves the text or the budget runs out,
/// then copies the remaining uncaptured text.  An unclosed frame at the end
/// of input is dropped without a descriptor: its placeholder stays in the
/// output with nothing referring to it, as the rewrite already happened when
/// the body opened.
pub open spec fn sp_scan(s: Seq<char>, st: ScanState, fuel: nat) -> (Seq<char>, Seq<ContextModel>)
    decreases fuel,
{
    if st.pos >= s.len() || fuel == 0 {
        (st.out + s.subrange(st.copied, s.len() as int), st.found)
    } else {
        sp_scan(s, sp_step(s, st), (fuel - 1) as nat)
    }
}

/// The scan budget: every step advances the position, so one step per
/// character plus one suffices.
pub open spec fn scan_fuel(s: Seq<char>) -> nat {
    s.len() + 1
}

/// What locating yields on a source text: the rewritten output and the
/// ordered top-level directive descriptors.
pub open spec fn sp_locate(s: Seq<char>) -> (Seq<char>, Seq<ContextModel>) {
    sp_scan(s, init_state(), scan_fuel(s))
}

/// The mathematical values of a sequence of descriptors, in order.
pub open spec fn contexts_model(cs: Seq<ShortcodeContext>) -> Seq<ContextModel>
    decreases cs,
{
    if cs.len() == 0 {
        Seq::empty()
    } else {
        seq![cs[0]@] + contexts_model(cs.drop_first())
    }
}

/// [`contexts_model`] keeps the length of the sequence it models.
pub proof fn lemma_contexts_model_len(cs: Seq<ShortcodeContext>)
    ensures
        contexts_model(cs).len() == cs.len(),
    decreases cs.len(),
{
    if cs.len() > 0 {
        lemma_contexts_model_len(cs.drop_first());
        assert(contexts_model(cs) == seq![cs[0]@] + contexts_model(cs.drop_first()));
    } else {
        assert(contexts_model(cs) == Seq::<ContextModel>::empty());
    }
}

/// Indexing into [`contexts_model`] agrees with taking each descriptor's
/// value.
proof fn lemma_contexts_model_index(cs: Seq<ShortcodeContext>, i: int)
    requires
        0 <= i < cs.len(),
    ensures
        contexts_model(cs)[i] == cs[i]@,
    decreases i,
{
    lemma_contexts_model_len(cs);
    lemma_contexts_model_len(cs.drop_first());
    assert(contexts_model(cs) == seq![cs[0]@] + contexts_model(cs.drop_first()));
    if i > 0 {
        lemma_contexts_model_index(cs.drop_first(), i - 1);
        assert(cs.drop_first()[i - 1] == cs[i]);
    }
}

/// Appending one descriptor extends the model by that descriptor's value.
pub proof fn lemma_contexts_model_push(cs: Seq<ShortcodeContext>, c: ShortcodeContext)
    ensures
        contexts_model(cs.push(c)) == contexts_model(cs).push(c@),
    decreases cs.len(),
{
    if cs.len() == 0 {
        assert(cs.push(c).drop_first() =~= Seq::<ShortcodeContext>::empty());
        assert(contexts_model(cs.push(c)) == seq![c@] + contexts_model(cs.push(c).drop_first()));
        assert(contexts_model(cs) == Seq::<ContextModel>::empty());
        assert(contexts_model(cs.push(c)) =~= contexts_model(cs).push(c@));
    } else {
        assert(cs.push(c).drop_first() =~= cs.drop_first().push(c));
        lemma_contexts_model_push(cs.drop_first(), c);
        assert(contexts_model(cs.push(c)) == seq![cs[0]@] + contexts_model(cs.drop_first().push(c)));
        assert(contexts_model(cs) == seq![cs[0]@] + contexts_model(cs.drop_first()));
        assert(contexts_model(cs.push(c)) =~= contexts_model(cs).push(c@));
    }
}

/// One open body-carrying directive while the scan runs.
pub(crate) struct BodiedStackItem {
    pub(crate) name: String,
    pub(crate) args: Vec<(String, ArgValue)>,
    pub(crate) openblock_span: Span,
    pub(crate) body_start: usize,
}

/// The model of the locator's optional open frame.
spec fn frame_model(f: &Option<BodiedStackItem>) -> Option<FrameModel> {
    match f {
        None => None,
        Some(b) => Some(
            FrameModel {
                name: b.name@,
                args: args_model(b.args@),
                openblock_span: b.openblock_span@,
                body_start: b.body_start as int,
            },
        ),
    }
}

fn end_marker_end_exec(s: &str, n: usize, i: usize) -> (r: Option<usize>)
    requires
        n == s@.len(),
        i <= n,
    ensures
        r is None ==> end_marker_end(s@, i as int) is None,
        r matches Some(e) ==> end_marker_end(s@, i as int) == Some(e as int) && i < e <= n,
{
    if n - i < 2 {
        return None;
    }
    if !(s.get_char(i) == '{') {
        return None;
    }
    if !(s.get_char(i + 1) == '%') {
        return None;
    }
    let j = ws_end_exec(s, n, i + 2);
    if n - j < 3 {
        return None;
    }
    let c0 = s.get_char(j);
    let c1 = s.get_char(j + 1);
    let c2 = s.get_char(j + 2);
    if !((c0 == 'e' || c0 == 'E') && (c1 == 'n' || c1 == 'N') && (c2 == 'd' || c2 == 'D')) {
        return None;
    }
    let k = ws_end_exec(s, n, j + 3);
    if n - k < 2 {
        return None;
    }
    if s.get_char(k) == '%' && s.get_char(k + 1) == '}' {
        Some(k + 2)
    } else {
        None
    }
}

fn open_end_exec(s: &str, n: usize, i: usize, second: char) -> (r: Option<usize>)
    requires
        n == s@.len(),
        i <= n,
    ensures
        second == '%' ==> (r is None <==> body_open_end(s@, i as int) is None),
        second == '{' ==> (r is None <==> normal_open_end(s@, i as int) is None),
        second == '%' ==> (r matches Some(e) ==> body_open_end(s@, i as int) == Some(e as int)),
        second == '{' ==> (r matches Some(e) ==> normal_open_end(s@, i as int) == Some(e as int)),
        r matches Some(e) ==> i < e <= n,
{
    if n - i < 2 {
        return None;
    }
    if !(s.get_char(i) == '{') {
        return None;
    }
    if !(s.get_char(i + 1) == second) {
        return None;
    }
    let e = ws_end_exec(s, n, i + 2);
    proof {
        crate::tag::lemma_ws_end(s@, i + 2);
    }
    Some(e)
}

fn closer_at_exec(s: &str, n: usize, i: usize) -> (r: Option<(bool, usize)>)
    requires
        n == s@.len(),
        i <= n,
    ensures
        r is None ==> closer_at(s@, i as int) is None,
        r matches Some((b, e)) ==> closer_at(s@, i as int) == Some((b, e as int)) && e <= n,
{
    let j = ws_end_exec(s, n, i);
    if n - j < 2 {
        return None;
    }
    let c0 = s.get_char(j);
    let c1 = s.get_char(j + 1);
    if c0 == '%' && c1 == '}' {
        Some((true, j + 2))
    } else if c0 == '}' && c1 == '}' {
        Some((false, j + 2))
    } else {
        None
    }
}


/// Locates every top-level directive occurrence in `source`.  Hands back the
/// rewritten string, in which each located directive stands as one fixed
/// placeholder, and the descriptors in the order their placeholders appear.
/// Directives inside another directive's body are left as raw text within
/// the captured body and are not located in this pass.
pub fn fetch_shortcodes(source: &str) -> (r: (String, Vec<ShortcodeContext>))
    ensures
        r.0@ == sp_locate(source@).0,
        contexts_model(r.1@) == sp_locate(source@).1,
        r.1@.len() == sp_locate(source@).1.len(),
        forall|i: int| 0 <= i < r.1@.len() ==> (#[trigger] r.1@[i])@ == sp_locate(source@).1[i],
{
    let n = source.unicode_len();
    let mut pos: usize = 0;
    let mut copied: usize = 0;
    let mut out = String::new();
    let mut found: Vec<ShortcodeContext> = Vec::new();
    let mut frame: Option<BodiedStackItem> = None;
    let mut fuel: u128 = (n as u128) + 1;
    proof {
        assert(contexts_model(found@) == Seq::<ContextModel>::empty());
        assert(ScanState {
            pos: pos as int,
            copied: copied as int,
            out: out@,
            found: contexts_model(found@),
            frame: frame_model(&frame),
        } =~= init_state());
    }
    while pos < n && fuel > 0
        invariant
            n == source@.len(),
            pos <= n,
            copied <= pos,
            frame matches Some(f) ==> f.body_start <= pos,
            sp_scan(
                source@,
                ScanState {
                    pos: pos as int,
                    copied: copied as int,
                    out: out@,
                    found: contexts_model(found@),
                    frame: frame_model(&frame),
                },
                fuel as nat,
            ) == sp_locate(source@),
        decreases fuel,
    {
        let ghost st0 = ScanState {
            pos: pos as int,
            copied: copied as int,
            out: out@,
            found: contexts_model(found@),
            frame: frame_model(&frame),
        };
        proof {
            assert(sp_scan(source@, st0, fuel as nat)
                == sp_scan(source@, sp_step(source@, st0), (fuel - 1) as nat));
        }
        match end_marker_end_exec(source, n, pos) {
            Some(e) => {
                let fr = frame;
                frame = None;
                match fr {
                    Some(f) => {
                        let body_str = source.substring_char(f.body_start, pos).to_owned();
                        let ctx = ShortcodeContext {
                            name: f.name,
                            args: f.args,
                            span: f.openblock_span,
                            body: Some(body_str),
                        };
                        proof {
                            lemma_contexts_model_push(found@, ctx);
                        }
                        found.push(ctx);
                        copied = e;
                        pos = e;
                    },
                    None => {
                        pos = e;
                    },
                }
            },
            None => {
                match open_end_exec(source, n, pos, '%') {
                    Some(tok_end) => {
                        if frame.is_some() {
                            pos = tok_end;
                        } else {
                            out.append(source.substring_char(copied, pos));
                            match parse_tag(source, n, tok_end, (n as u128) + 2) {
                                Some((name, args, after)) => {
                                    match closer_at_exec(source, n, after) {
                                        Some((is_body, cend)) => {
                                            if is_body {
                                                let start = out.as_str().unicode_len();
                                                out.append(shortcode_placeholder());
                                                let end = out.as_str().unicode_len();
                                                frame = Some(BodiedStackItem {
                                                    name,
                                                    args,
                                                    openblock_span: Span { start, end },
                                                    body_start: cend,
                                                });
                                                copied = cend;
                                                pos = cend;
                                            } else {
                                                copied = pos;
                                                pos = tok_end;
                                            }
                                        },
                                        None => {
                                            copied = pos;
                                            pos = tok_end;
                                        },
                                    }
                                },
                                None => {
                                    copied = pos;
                                    pos = tok_end;
                                },
                            }
                        }
                    },
                    None => {
                        match open_end_exec(source, n, pos, '{') {
                            Some(tok_end) => {
                                if frame.is_some() {
                                    pos = tok_end;
                                } else {
                                    out.append(source.substring_char(copied, pos));
                                    match parse_tag(source, n, tok_end, (n as u128) + 2) {
                                        Some((name, args, after)) => {
                                            match closer_at_exec(source, n, after) {
                                                Some((is_body, cend)) => {
                                                    if !is_body {
                                                        let start = out.as_str().unicode_len();
                                                        out.append(shortcode_placeholder());
                                                        let end = out.as_str().unicode_len();
                                                        let ctx = ShortcodeContext {
                                                            name,
                                                            args,
                                                            span: Span { start, end },
                                                            body: None,
                                                        };
                                                        proof {
                                                            lemma_contexts_model_push(found@, ctx);
                                                        }
                                                        found.push(ctx);
                                                        copied = cend;
                                                        pos = cend;
                                                    } else {
                                                        copied = pos;
                                                        pos = tok_end;
                                                    }
                                                },
                                                None => {
                                                    copied = pos;
                                                    pos = tok_end;
                                                },
                                            }
                                        },
                                        None => {
                                            copied = pos;
                                            pos = tok_end;
                                        },
                                    }
                                }
                            },
                            None => {
                                pos = pos + 1;
                            },
                        }
                    },
                }
            },
        }
        fuel = fuel - 1;
        proof {
            assert(ScanState {
                pos: pos as int,
                copied: copied as int,
                out: out@,
                found: contexts_model(found@),
                frame: frame_model(&frame),
            } =~~= sp_step(source@, st0));
        }
    }
    out.append(source.substring_char(copied, n));
    proof {
        lemma_contexts_model_len(found@);
        assert forall|i: int| 0 <= i < found@.len() implies (#[trigger] found@[i])@
            == sp_locate(source@).1[i] by {
            lemma_contexts_model_index(found@, i);
        }
    }
    (out, found)
}


/// No opening marker occurs anywhere in `s`: no position carries `{{` or
/// `{%` (which also rules out every end marker).
pub open spec fn no_opening_marker(s: Seq<char>) -> bool {
    forall|i: int| 0 <= i < s.len() ==> body_open_end(s, i) is None && normal_open_end(s, i) is None
}

/// On a text with no opening marker, every scan step just advances.
proof fn lemma_scan_identity(s: Seq<char>, st: ScanState, fuel: nat)
    requires
        no_opening_marker(s),
    ensures
        sp_scan(s, st, fuel) == (st.out + s.subrange(st.copied, s.len() as int), st.found),
    decreases fuel,
{
    if st.pos >= s.len() || fuel == 0 {
    } else {
        assert(end_marker_end(s, st.pos) is None);
        assert(sp_step(s, st) == ScanState { pos: st.pos + 1, ..st });
        lemma_scan_identity(s, sp_step(s, st), (fuel - 1) as nat);
    }
}

/// Locating in a text that holds no recognizable opening marker returns the
/// text unchanged and finds nothing.
pub proof fn lemma_no_directive_identity(s: Seq<char>)
    requires
        no_opening_marker(s),
    ensures
        sp_locate(s).0 == s,
        sp_locate(s).1 == Seq::<ContextModel>::empty(),
{
    lemma_scan_identity(s, init_state(), scan_fuel(s));
    assert(Seq::<char>::empty() + s.subrange(0, s.len() as int) =~= s);
}


/// The state facts every scan step preserves: the copy cursor trails the
/// scan position and stays within the text, every emitted span is exactly
/// one placeholder wide and lies within the output written so far, the
/// spans appear in order without overlap, and an open frame's placeholder
/// span lies after all emitted spans and within the output.
pub open spec fn scan_inv(s: Seq<char>, st: ScanState) -> bool {
    &&& 0 <= st.copied <= st.pos
    &&& st.copied <= s.len()
    &&& forall|i: int| 0 <= i < st.found.len() ==> (#[trigger] st.found[i]).span.end
        == st.found[i].span.start + placeholder().len()
    &&& forall|i: int| 0 <= i < st.found.len() ==> 0 <= (#[trigger] st.found[i]).span.start
    &&& forall|i: int| 0 <= i < st.found.len() ==> (#[trigger] st.found[i]).span.end <= st.out.len()
    &&& forall|i: int, j: int| 0 <= i < j < st.found.len()
        ==> (#[trigger] st.found[i]).span.end <= (#[trigger] st.found[j]).span.start
    &&& match st.frame {
        Some(f) => {
            &&& f.openblock_span.end == f.openblock_span.start + placeholder().len()
            &&& 0 <= f.openblock_span.start
            &&& f.openblock_span.end <= st.out.len()
            &&& forall|i: int| 0 <= i < st.found.len()
                ==> (#[trigger] st.found[i]).span.end <= f.openblock_span.start
        },
        None => true,
    }
}

/// One scan step preserves [`scan_inv`] and never shrinks the output.
proof fn lemma_step_inv(s: Seq<char>, st: ScanState)
    requires
        scan_inv(s, st),
        0 <= st.pos < s.len(),
    ensures
        scan_inv(s, sp_step(s, st)),
        sp_step(s, st).out.len() >= st.out.len(),
{
    match end_marker_end(s, st.pos) {
        Some(e) => {
            crate::tag::lemma_ws_end(s, st.pos + 2);
            let j = ws_end(s, st.pos + 2);
            if j + 3 <= s.len() {
                crate::tag::lemma_ws_end(s, j + 3);
            }
        },
        None => {
            match body_open_end(s, st.pos) {
                Some(tok_end) => {
                    crate::tag::lemma_ws_end(s, st.pos + 2);
                    if !(st.frame is Some) {
                        crate::tag::lemma_tag_bounds(s, tok_end, tag_fuel(s));
                        match sp_tag(s, tok_end, tag_fuel(s)) {
                            Some((name, args, after)) => {
                                crate::tag::lemma_ws_end(s, after);
                            },
                            None => {},
                        }
                    }
                },
                None => {
                    match normal_open_end(s, st.pos) {
                        Some(tok_end) => {
                            crate::tag::lemma_ws_end(s, st.pos + 2);
                            if !(st.frame is Some) {
                                crate::tag::lemma_tag_bounds(s, tok_end, tag_fuel(s));
                                match sp_tag(s, tok_end, tag_fuel(s)) {
                                    Some((name, args, after)) => {
                                        crate::tag::lemma_ws_end(s, after);
                                    },
                                    None => {},
                                }
                            }
                        },
                        None => {},
                    }
                },
            }
        },
    }
}

/// Running the scan from a state satisfying [`scan_inv`] yields spans that
/// are uniform, ordered, non-overlapping and within the output.
proof fn lemma_scan_spans(s: Seq<char>, st: ScanState, fuel: nat)
    requires
        scan_inv(s, st),
    ensures
        ({
            let (out, found) = sp_scan(s, st, fuel);
            &&& forall|i: int| 0 <= i < found.len() ==> (#[trigger] found[i]).span.end
                == found[i].span.start + placeholder().len()
            &&& forall|i: int| 0 <= i < found.len() ==> 0 <= (#[trigger] found[i]).span.start
            &&& forall|i: int| 0 <= i < found.len() ==> (#[trigger] found[i]).span.end <= out.len()
            &&& forall|i: int, j: int| 0 <= i < j < found.len()
                ==> (#[trigger] found[i]).span.end <= (#[trigger] found[j]).span.start
        }),
    decreases fuel,
{
    if st.pos >= s.len() || fuel == 0 {
        assert((st.out + s.subrange(st.copied, s.len() as int)).len() >= st.out.len());
    } else {
        lemma_step_inv(s, st);
        lemma_scan_spans(s, sp_step(s, st), (fuel - 1) as nat);
    }
}

/// Every located descriptor's span is exactly one placeholder wide and lies
/// within the rewritten output, and the spans stand in order, each ending
/// no later than the next begins: placeholders never overlap.
pub proof fn lemma_locate_spans(s: Seq<char>)
    ensures
        ({
            let (out, found) = sp_locate(s);
            &&& forall|i: int| 0 <= i < found.len() ==> (#[trigger] found[i]).span.end
                == found[i].span.start + placeholder().len()
            &&& forall|i: int| 0 <= i < found.len() ==> 0 <= (#[trigger] found[i]).span.start
            &&& forall|i: int| 0 <= i < found.len() ==> (#[trigger] found[i]).span.end <= out.len()
            &&& forall|i: int, j: int| 0 <= i < j < found.len()
                ==> (#[trigger] found[i]).span.end <= (#[trigger] found[j]).span.start
        }),
{
    lemma_scan_spans(s, init_state(), scan_fuel(s));
}

} // verus!
