//! Laws that hold of every transcoded document.
use vstd::prelude::*;
use crate::token::{TokenView, Kind, kind_of, delta, walk, balanced, count_opens, count_closes,
    lemma_walk_append, lemma_walk_counts};
use crate::engine::{Capabilities, TranscodeError, Frame, octets, step, run, transcode, in_key,
    slot_open, after_value, lemma_run_err_extends};

verus! {

/// Integer tokens leave the depth as it is.
proof fn lemma_walk_octets(d: int, b: Seq<u8>)
    requires
        d >= 0,
    ensures
        walk(d, octets(b)) == Some(d),
    decreases b.len(),
{
    if b.len() > 0 {
        assert(octets(b).drop_first() =~= octets(b.drop_first()));
        lemma_walk_octets(d, b.drop_first());
    }
}

proof fn lemma_walk_one(d: int, t: TokenView)
    requires
        d + delta(t) >= 0,
    ensures
        walk(d, seq![t]) == Some(d + delta(t)),
{
    assert(seq![t].drop_first() =~= seq![]);
    assert(walk(d + delta(t), seq![t].drop_first()) == Some(d + delta(t)));
}

/// What one step hands the encoder walks from the old depth to the new.
proof fn lemma_step_walk(c: Capabilities, max_depth: nat, k: Seq<Frame>, done: bool, t: TokenView)
    requires
        step(c, max_depth, k, done, t) is Ok,
    ensures
        walk(k.len() as int, step(c, max_depth, k, done, t)->Ok_0.2) == Some(
            step(c, max_depth, k, done, t)->Ok_0.0.len() as int,
        ),
        step(c, max_depth, k, done, t)->Ok_0.1 ==> step(c, max_depth, k, done, t)->Ok_0.0.len() == 0,
{
    let d = k.len();
    let e = step(c, max_depth, k, done, t)->Ok_0.2;
    match t {
        TokenView::Bytes(b) => {
            if !c.bytes {
                let open = seq![TokenView::SeqStart(Some(b.len() as usize))];
                let close = seq![TokenView::SeqEnd];
                assert(e == open + octets(b) + close);
                lemma_walk_append(d as int, open + octets(b), close);
                lemma_walk_append(d as int, open, octets(b));
                lemma_walk_octets(d + 1int, b);
                assert(walk(d as int, open) == Some(d + 1int)) by {
                    assert(open.drop_first() =~= seq![]);
                    assert(walk(d + 1int, open.drop_first()) == Some(d + 1int));
                }
                assert(walk(d + 1int, close) == Some(d as int)) by {
                    assert(close.drop_first() =~= seq![]);
                    assert(walk(d as int, close.drop_first()) == Some(d as int));
                }
            } else {
                assert(e.drop_first() =~= seq![]);
                assert(walk(d as int, e.drop_first()) == Some(d as int));
            }
        },
        TokenView::VariantStart { variant, .. } => {
            if !c.variants {
                assert(e =~= seq![TokenView::MapStart(Some(1))] + seq![TokenView::Str(variant)]);
                lemma_walk_append(d as int, seq![TokenView::MapStart(Some(1))], seq![TokenView::Str(variant)]);
                lemma_walk_one(d as int, TokenView::MapStart(Some(1)));
                lemma_walk_one(d + 1int, TokenView::Str(variant));
            } else {
                lemma_walk_one(d as int, t);
            }
        },
        TokenView::OptionSome => {
            if c.option {
                lemma_walk_one(d as int, t);
            }
        },
        _ => {
            assert(e.len() == 1);
            assert(e =~= seq![e[0]]);
            lemma_walk_one(d as int, e[0]);
        },
    }
}

/// After any prefix the engine accepts, what it handed the encoder walks
/// from depth zero to the number of open containers, and a complete root
/// leaves none open.
proof fn lemma_run_walk(c: Capabilities, max_depth: nat, ts: Seq<TokenView>)
    requires
        run(c, max_depth, ts) is Ok,
    ensures
        run(c, max_depth, ts) matches Ok((k, done, out)) && walk(0, out) == Some(k.len() as int) && (
        done ==> k.len() == 0),
    decreases ts.len(),
{
    if ts.len() > 0 {
        lemma_run_walk(c, max_depth, ts.drop_last());
        let (k, done, out) = run(c, max_depth, ts.drop_last())->Ok_0;
        lemma_step_walk(c, max_depth, k, done, ts.last());
        let e = step(c, max_depth, k, done, ts.last())->Ok_0.2;
        lemma_walk_append(0, out, e);
    }
}

/// Structural balance: every document that transcodes hands the encoder as
/// many container opens as closes, and the depth never goes negative on
/// the way.
pub proof fn lemma_output_balanced(c: Capabilities, max_depth: nat, ts: Seq<TokenView>)
    requires
        transcode(c, max_depth, ts) is Ok,
    ensures
        balanced(transcode(c, max_depth, ts)->Ok_0),
        count_opens(transcode(c, max_depth, ts)->Ok_0) == count_closes(
            transcode(c, max_depth, ts)->Ok_0,
        ),
{
    lemma_run_walk(c, max_depth, ts);
    lemma_walk_counts(0, transcode(c, max_depth, ts)->Ok_0);
}

/// Determinism: transcoding the same tokens for the same target gives the
/// same result, degradations included.
pub proof fn lemma_transcode_deterministic(c: Capabilities, max_depth: nat, a: Seq<TokenView>, b: Seq<TokenView>)
    requires
        a == b,
    ensures
        transcode(c, max_depth, a) == transcode(c, max_depth, b),
{
}

/// A document of raw bytes, written for a target without binary data,
/// always comes out as the sequence of its octets.
pub proof fn lemma_bytes_degrade(c: Capabilities, max_depth: nat, b: Seq<u8>)
    requires
        !c.bytes,
        max_depth > 0,
    ensures
        transcode(c, max_depth, seq![TokenView::Bytes(b)]) == Ok::<Seq<TokenView>, TranscodeError>(
            seq![TokenView::SeqStart(Some(b.len() as usize))] + octets(b) + seq![TokenView::SeqEnd],
        ),
{
    let ts = seq![TokenView::Bytes(b)];
    assert(ts.drop_last() =~= seq![]);
    assert(run(c, max_depth, ts.drop_last()) == Ok::<(Seq<Frame>, bool, Seq<TokenView>), TranscodeError>(
        (seq![], false, seq![]),
    ));
    assert(seq![] + (seq![TokenView::SeqStart(Some(b.len() as usize))] + octets(b) + seq![TokenView::SeqEnd]) =~= (
    seq![TokenView::SeqStart(Some(b.len() as usize))] + octets(b) + seq![TokenView::SeqEnd]));
}

/// Numeric range rejection: an integer outside the target's range that the
/// engine reaches as a value fails the whole document with a range error;
/// it is never wrapped or cut. (As a string key it is written as text.)
pub proof fn lemma_integer_out_of_range(c: Capabilities, max_depth: nat, ts: Seq<TokenView>, i: int)
    requires
        0 <= i < ts.len(),
        ts[i] matches TokenView::Integer { value, .. } && (value < c.int_min || value > c.int_max),
        run(c, max_depth, ts.take(i)) matches Ok((st, done, _)) && !done && slot_open(st) && !in_key(
            c,
            st,
        ),
    ensures
        transcode(c, max_depth, ts) == Err::<Seq<TokenView>, TranscodeError>(TranscodeError::NumericRange),
{
    assert(ts.take(i + 1).drop_last() =~= ts.take(i));
    assert(ts.take(i + 1).last() == ts[i]);
    lemma_run_err_extends(c, max_depth, ts, i + 1);
}

/// Every integer token lies within the target's range.
pub open spec fn ints_in_range(c: Capabilities, s: Seq<TokenView>) -> bool {
    forall|i: int|
        0 <= i < s.len() ==> (#[trigger] s[i] matches TokenView::Integer { value, .. } ==> c.int_min
            <= value <= c.int_max)
}

proof fn lemma_step_ints(c: Capabilities, max_depth: nat, k: Seq<Frame>, done: bool, t: TokenView)
    requires
        c.wf(),
        step(c, max_depth, k, done, t) is Ok,
    ensures
        ints_in_range(c, step(c, max_depth, k, done, t)->Ok_0.2),
{
    let e = step(c, max_depth, k, done, t)->Ok_0.2;
    if let TokenView::Bytes(b) = t {
        if !c.bytes && !in_key(c, k) {
            assert(e == seq![TokenView::SeqStart(Some(b.len() as usize))] + octets(b) + seq![
                TokenView::SeqEnd,
            ]);
            assert forall|i: int| 0 <= i < e.len() implies (#[trigger] e[i] matches TokenView::Integer {
                value,
                ..
            } ==> c.int_min <= value <= c.int_max) by {
                if 1 <= i < e.len() - 1 {
                    assert(e[i] == octets(b)[i - 1]);
                }
            }
        }
    }
}

/// No wraparound: every integer that a transcoded document hands the
/// encoder lies within the target's range, so one outside it can only end
/// in an error or, as a string key, as text.
pub proof fn lemma_output_integers_in_range(c: Capabilities, max_depth: nat, ts: Seq<TokenView>)
    requires
        c.wf(),
        run(c, max_depth, ts) is Ok,
    ensures
        ints_in_range(c, run(c, max_depth, ts)->Ok_0.2),
    decreases ts.len(),
{
    if ts.len() > 0 {
        lemma_output_integers_in_range(c, max_depth, ts.drop_last());
        let (k, done, out) = run(c, max_depth, ts.drop_last())->Ok_0;
        lemma_step_ints(c, max_depth, k, done, ts.last());
        let e = step(c, max_depth, k, done, ts.last())->Ok_0.2;
        let all = out + e;
        assert forall|i: int| 0 <= i < all.len() implies (#[trigger] all[i] matches TokenView::Integer {
            value,
            ..
        } ==> c.int_min <= value <= c.int_max) by {
            if i < out.len() {
                assert(all[i] == out[i]);
            } else {
                assert(all[i] == e[i - out.len()]);
            }
        }
    }
}

/// Empty input rejection: a document without tokens is an error, never a
/// default value.
pub proof fn lemma_empty_rejected(c: Capabilities, max_depth: nat)
    ensures
        transcode(c, max_depth, seq![]) == Err::<Seq<TokenView>, TranscodeError>(
            TranscodeError::EmptyDocument,
        ),
{
}

/// The engine run from a given state over a token sequence, first token
/// first.
pub open spec fn run_from(c: Capabilities, max_depth: nat, k: Seq<Frame>, done: bool, s: Seq<TokenView>) -> Result<
    (Seq<Frame>, bool, Seq<TokenView>),
    TranscodeError,
>
    decreases s.len(),
{
    if s.len() == 0 {
        Ok((k, done, seq![]))
    } else {
        match step(c, max_depth, k, done, s[0]) {
            Ok((k2, done2, e)) => match run_from(c, max_depth, k2, done2, s.drop_first()) {
                Ok((k3, done3, o)) => Ok((k3, done3, e + o)),
                Err(x) => Err(x),
            },
            Err(x) => Err(x),
        }
    }
}

/// The frame that a container has once degraded for the target. A variant
/// written as a one-entry map has its key behind it when its payload is
/// still to come.
pub open spec fn out_frame(c: Capabilities, f: Frame) -> Frame {
    match f.kind {
        Kind::Struct => if c.structs { f } else { Frame { kind: Kind::Mapping, key_next: f.key_next } },
        Kind::Variant => if c.variants { f } else { Frame { kind: Kind::Mapping, key_next: !f.key_next } },
        _ => f,
    }
}

pub open spec fn out_stack(c: Capabilities, k: Seq<Frame>) -> Seq<Frame> {
    k.map_values(|x: Frame| out_frame(c, x))
}

proof fn lemma_out_stack(c: Capabilities, k: Seq<Frame>, x: Frame)
    ensures
        out_stack(c, k).len() == k.len(),
        out_stack(c, k.push(x)) == out_stack(c, k).push(out_frame(c, x)),
        k.len() > 0 ==> out_stack(c, k.drop_last()) == out_stack(c, k).drop_last(),
        k.len() > 0 ==> out_stack(c, k).last() == out_frame(c, k.last()),
        out_stack(c, seq![]) == Seq::<Frame>::empty(),
        after_value(out_stack(c, k)) == out_stack(c, after_value(k)),
        slot_open(k) ==> slot_open(out_stack(c, k)),
        slot_open(k) ==> in_key(c, out_stack(c, k)) == in_key(c, k),
{
    assert(out_stack(c, k.push(x)) =~= out_stack(c, k).push(out_frame(c, x)));
    if k.len() > 0 {
        assert(out_stack(c, k.drop_last()) =~= out_stack(c, k).drop_last());
        let f = k.last();
        if f.kind != Kind::Sequence {
            let g = Frame { kind: f.kind, key_next: !f.key_next };
            assert(after_value(k) == k.drop_last().push(g));
            assert(out_stack(c, k.drop_last().push(g)) =~= out_stack(c, k.drop_last()).push(out_frame(c, g)));
            assert(after_value(out_stack(c, k)) =~= out_stack(c, after_value(k)));
        }
    }
    assert(out_stack(c, seq![]) =~= Seq::<Frame>::empty());
}

proof fn lemma_run_from_append(
    c: Capabilities,
    max_depth: nat,
    k: Seq<Frame>,
    done: bool,
    a: Seq<TokenView>,
    b: Seq<TokenView>,
)
    ensures
        run_from(c, max_depth, k, done, a + b) == (match run_from(c, max_depth, k, done, a) {
            Ok((k2, done2, o)) => match run_from(c, max_depth, k2, done2, b) {
                Ok((k3, done3, o2)) => Ok((k3, done3, o + o2)),
                Err(x) => Err(x),
            },
            Err(x) => Err(x),
        }),
    decreases a.len(),
{
    if a.len() == 0 {
        assert(a + b =~= b);
        match run_from(c, max_depth, k, done, b) {
            Ok((k3, done3, o2)) => {
                assert(seq![] + o2 =~= o2);
            },
            Err(_) => {},
        }
    } else {
        assert((a + b).drop_first() =~= a.drop_first() + b);
        match step(c, max_depth, k, done, a[0]) {
            Ok((k2, done2, e)) => {
                lemma_run_from_append(c, max_depth, k2, done2, a.drop_first(), b);
                match run_from(c, max_depth, k2, done2, a.drop_first()) {
                    Ok((k3, done3, o)) => {
                        match run_from(c, max_depth, k3, done3, b) {
                            Ok((k4, done4, o2)) => {
                                assert(e + (o + o2) =~= (e + o) + o2);
                            },
                            Err(_) => {},
                        }
                    },
                    Err(_) => {},
                }
            },
            Err(_) => {},
        }
    }
}

proof fn lemma_run_from_one(c: Capabilities, max_depth: nat, k: Seq<Frame>, done: bool, t: TokenView)
    ensures
        run_from(c, max_depth, k, done, seq![t]) == step(c, max_depth, k, done, t),
{
    assert(seq![t].drop_first() =~= seq![]);
    match step(c, max_depth, k, done, t) {
        Ok((k2, done2, e)) => {
            assert(run_from(c, max_depth, k2, done2, seq![t].drop_first()) == Ok::<
                (Seq<Frame>, bool, Seq<TokenView>),
                TranscodeError,
            >((k2, done2, seq![])));
            assert(e + seq![] =~= e);
        },
        Err(_) => {},
    }
}

/// Running from the start is running forward with no container open.
proof fn lemma_run_is_run_from(c: Capabilities, max_depth: nat, ts: Seq<TokenView>)
    ensures
        run(c, max_depth, ts) == run_from(c, max_depth, seq![], false, ts),
    decreases ts.len(),
{
    if ts.len() > 0 {
        lemma_run_is_run_from(c, max_depth, ts.drop_last());
        assert(ts.drop_last() + seq![ts.last()] =~= ts);
        lemma_run_from_append(c, max_depth, seq![], false, ts.drop_last(), seq![ts.last()]);
        match run(c, max_depth, ts.drop_last()) {
            Ok((k, done, out)) => {
                lemma_run_from_one(c, max_depth, k, done, ts.last());
            },
            Err(_) => {},
        }
    }
}

proof fn lemma_replay_octets(c: Capabilities, max_depth: nat, k: Seq<Frame>, b: Seq<u8>)
    requires
        c.wf(),
        k.len() > 0,
        k.last().kind == Kind::Sequence,
    ensures
        run_from(c, max_depth, k, false, octets(b)) == Ok::<(Seq<Frame>, bool, Seq<TokenView>), TranscodeError>(
            (k, false, octets(b)),
        ),
    decreases b.len(),
{
    if b.len() > 0 {
        assert(octets(b).drop_first() =~= octets(b.drop_first()));
        lemma_replay_octets(c, max_depth, k, b.drop_first());
        let t = octets(b)[0];
        assert(step(c, max_depth, k, false, t) == Ok::<(Seq<Frame>, bool, Seq<TokenView>), TranscodeError>(
            (k, false, seq![t]),
        ));
        assert(seq![t] + octets(b.drop_first()) =~= octets(b));
    } else {
        assert(octets(b) =~= seq![]);
    }
}

/// What one step hands the encoder, run through the engine again from the
/// degraded state, reaches the degraded new state and is handed on
/// unchanged.
proof fn lemma_step_replay(c: Capabilities, max_depth: nat, k: Seq<Frame>, t: TokenView)
    requires
        c.wf(),
        step(c, max_depth, k, false, t) is Ok,
    ensures
        ({
            let (k2, done2, e) = step(c, max_depth, k, false, t)->Ok_0;
            &&& run_from(c, max_depth, out_stack(c, k), false, e) == Ok::<
                (Seq<Frame>, bool, Seq<TokenView>),
                TranscodeError,
            >((out_stack(c, k2), done2, e))
            &&& done2 ==> e.len() > 0
        }),
{
    let (k2, done2, e) = step(c, max_depth, k, false, t)->Ok_0;
    let ok = out_stack(c, k);
    let pushed = Frame { kind: kind_of(t), key_next: true };
    lemma_out_stack(c, k, pushed);
    if k.len() > 0 {
        lemma_out_stack(c, k.drop_last(), pushed);
        assert(k.drop_last().push(k.last()) =~= k);
    }
    if e.len() == 1 {
        assert(e =~= seq![e[0]]);
        lemma_run_from_one(c, max_depth, ok, false, e[0]);
    } else {
        match t {
            TokenView::Bytes(b) => {
                let open = seq![TokenView::SeqStart(Some(b.len() as usize))];
                let close = seq![TokenView::SeqEnd];
                let inner = ok.push(Frame { kind: Kind::Sequence, key_next: true });
                assert(e == open + octets(b) + close);
                lemma_run_from_append(c, max_depth, ok, false, open + octets(b), close);
                lemma_run_from_append(c, max_depth, ok, false, open, octets(b));
                lemma_run_from_one(c, max_depth, ok, false, open[0]);
                lemma_replay_octets(c, max_depth, inner, b);
                lemma_run_from_one(c, max_depth, inner, false, close[0]);
                assert(inner.drop_last() =~= ok);
            },
            TokenView::VariantStart { variant, .. } => {
                let a = seq![TokenView::MapStart(Some(1))];
                let s = seq![TokenView::Str(variant)];
                let inner = ok.push(Frame { kind: Kind::Mapping, key_next: true });
                assert(e =~= a + s);
                lemma_run_from_append(c, max_depth, ok, false, a, s);
                lemma_run_from_one(c, max_depth, ok, false, a[0]);
                lemma_run_from_one(c, max_depth, inner, false, s[0]);
                assert(after_value(inner) =~= ok.push(Frame { kind: Kind::Mapping, key_next: false }));
            },
            _ => {
                assert(e =~= seq![]);
            },
        }
    }
}

/// Running the engine over what it handed the encoder reproduces it, with
/// each container degraded for the target.
proof fn lemma_replay_run(c: Capabilities, max_depth: nat, ts: Seq<TokenView>)
    requires
        c.wf(),
        run(c, max_depth, ts) is Ok,
    ensures
        ({
            let (k, done, out) = run(c, max_depth, ts)->Ok_0;
            &&& run(c, max_depth, out) == Ok::<(Seq<Frame>, bool, Seq<TokenView>), TranscodeError>(
                (out_stack(c, k), done, out),
            )
            &&& done ==> out.len() > 0
        }),
    decreases ts.len(),
{
    if ts.len() == 0 {
        lemma_out_stack(c, seq![], Frame { kind: Kind::Sequence, key_next: true });
    } else {
        let (k, done, out) = run(c, max_depth, ts.drop_last())->Ok_0;
        lemma_replay_run(c, max_depth, ts.drop_last());
        lemma_step_replay(c, max_depth, k, ts.last());
        let e = step(c, max_depth, k, done, ts.last())->Ok_0.2;
        lemma_run_is_run_from(c, max_depth, out);
        lemma_run_is_run_from(c, max_depth, out + e);
        lemma_run_from_append(c, max_depth, seq![], false, out, e);
    }
}

/// Round-trip fixed point: transcoding a transcoded document again for the
/// same target gives it back unchanged.
pub proof fn lemma_round_trip_fixed_point(c: Capabilities, max_depth: nat, ts: Seq<TokenView>)
    requires
        c.wf(),
        transcode(c, max_depth, ts) is Ok,
    ensures
        transcode(c, max_depth, transcode(c, max_depth, ts)->Ok_0) == transcode(c, max_depth, ts),
{
    lemma_replay_run(c, max_depth, ts);
}

} // verus!
