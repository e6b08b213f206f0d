//! The transcoding engine: checks the nesting of a token stream and
//! degrades each token to what the target format can represent.
use vstd::prelude::*;
use crate::token::{Token, TokenView, Shape, Kind, shape_of, kind_of, views};
use vstd::string::StringExecFns;

verus! {

/// The deepest nesting the engine accepts, to bound the work an
/// adversarial document can cause.
pub const MAX_DEPTH: usize = 128;

/// What a target format can represent natively.
#[derive(Debug, Clone, Copy, PartialEq, Eq, Structural)]
pub struct Capabilities {
    pub null: bool,
    pub bytes: bool,
    pub option: bool,
    pub structs: bool,
    pub variants: bool,
    /// Map keys must be strings.
    pub string_keys: bool,
    /// The least integer the format can hold.
    pub int_min: i128,
    /// The greatest integer the format can hold.
    pub int_max: i128,
}

impl Capabilities {
    /// Every octet fits the integer range, so that bytes can always be
    /// written as a sequence of integers.
    pub open spec fn wf(self) -> bool {
        self.int_min <= 0 && 255 <= self.int_max
    }
}

/// Why a token stream could not be transcoded.
#[derive(Debug, Clone, Copy, PartialEq, Eq, Structural)]
pub enum TranscodeError {
    /// A container was closed at depth zero or by the close of another
    /// kind, or the document ended open.
    UnbalancedStructure,
    /// A token came after the root value was complete.
    TrailingData,
    /// The document held no token at all.
    EmptyDocument,
    /// A container was opened past the nesting limit.
    NestingTooDeep,
    /// An integer lies outside the target's range.
    NumericRange,
    /// The target has no representation for the token, even degraded, or
    /// for it as a map key.
    Unrepresentable,
}

/// The octets of a byte string, each as an unsigned 8-bit integer.
pub open spec fn octets(b: Seq<u8>) -> Seq<TokenView> {
    Seq::new(b.len(), |i: int| TokenView::Integer { value: b[i] as i128, signed: false, width: 8 })
}

pub open spec fn digit_char(d: nat) -> char {
    seq!['0', '1', '2', '3', '4', '5', '6', '7', '8', '9'][d as int]
}

/// The decimal digits of `n`, most significant first.
pub open spec fn digits(n: nat) -> Seq<char>
    decreases n,
{
    if n < 10 {
        seq![digit_char(n)]
    } else {
        digits(n / 10).push(digit_char(n % 10))
    }
}

/// The canonical decimal rendering of an integer.
pub open spec fn decimal(v: int) -> Seq<char> {
    if v < 0 {
        seq!['-'] + digits((-v) as nat)
    } else {
        digits(v as nat)
    }
}

/// The tokens that stand for `t` in the target format, or the error that
/// rejects it, when `t` comes at nesting depth `depth` outside a key.
///
/// The policy: a byte string, for a target without binary data, becomes a
/// sequence of its octets as unsigned 8-bit integers (as JSON encoders
/// write bytes), not base64 text; a struct becomes a map with the same
/// fields; a variant with a payload becomes a one-entry map from its name;
/// a unit variant becomes its name; an absent option becomes null and a
/// present one its value. What has no substitute is refused.
pub open spec fn degrade(c: Capabilities, max_depth: nat, depth: nat, t: TokenView) -> Result<
    Seq<TokenView>,
    TranscodeError,
> {
    match t {
        TokenView::Null => if c.null {
            Ok(seq![t])
        } else {
            Err(TranscodeError::Unrepresentable)
        },
        TokenView::Integer { value, .. } => if c.int_min <= value <= c.int_max {
            Ok(seq![t])
        } else {
            Err(TranscodeError::NumericRange)
        },
        TokenView::Bytes(b) => if c.bytes {
            Ok(seq![t])
        } else if depth < max_depth {
            Ok(seq![TokenView::SeqStart(Some(b.len() as usize))] + octets(b) + seq![TokenView::SeqEnd])
        } else {
            Err(TranscodeError::NestingTooDeep)
        },
        TokenView::StructStart { fields, .. } => if c.structs {
            Ok(seq![t])
        } else {
            Ok(seq![TokenView::MapStart(Some(fields))])
        },
        TokenView::StructEnd => if c.structs {
            Ok(seq![t])
        } else {
            Ok(seq![TokenView::MapEnd])
        },
        TokenView::VariantStart { variant, .. } => if c.variants {
            Ok(seq![t])
        } else {
            Ok(seq![TokenView::MapStart(Some(1)), TokenView::Str(variant)])
        },
        TokenView::VariantEnd => if c.variants {
            Ok(seq![t])
        } else {
            Ok(seq![TokenView::MapEnd])
        },
        TokenView::UnitVariant { variant, .. } => if c.variants {
            Ok(seq![t])
        } else {
            Ok(seq![TokenView::Str(variant)])
        },
        TokenView::OptionSome => if c.option {
            Ok(seq![t])
        } else {
            Ok(seq![])
        },
        TokenView::OptionNone => if c.option {
            Ok(seq![t])
        } else if c.null {
            Ok(seq![TokenView::Null])
        } else {
            Err(TranscodeError::Unrepresentable)
        },
        _ => Ok(seq![t]),
    }
}

/// A scalar map key for a target whose keys are strings: strings stay,
/// integers, booleans, null and unit variants become their canonical text,
/// and floats and byte strings are refused.
pub open spec fn degrade_key(t: TokenView) -> Result<Seq<TokenView>, TranscodeError> {
    match t {
        TokenView::Str(_) => Ok(seq![t]),
        TokenView::Integer { value, .. } => Ok(seq![TokenView::Str(decimal(value as int))]),
        TokenView::Bool(b) => Ok(seq![TokenView::Str(if b { seq!['t', 'r', 'u', 'e'] } else { seq!['f', 'a', 'l', 's', 'e'] })]),
        TokenView::UnitVariant { variant, .. } => Ok(seq![TokenView::Str(variant)]),
        TokenView::Null | TokenView::OptionNone => Ok(seq![TokenView::Str(seq!['n', 'u', 'l', 'l'])]),
        _ => Err(TranscodeError::Unrepresentable),
    }
}

/// An open container. For a map or a struct `key_next` tells whether a key
/// comes next; for a variant, whether its payload is still to come.
#[derive(Debug, Clone, Copy, PartialEq, Eq, Structural)]
pub struct Frame {
    pub kind: Kind,
    pub key_next: bool,
}

/// The next value is a key of a target whose keys are strings.
pub open spec fn in_key(c: Capabilities, st: Seq<Frame>) -> bool {
    &&& c.string_keys
    &&& st.len() > 0
    &&& (st.last().kind == Kind::Mapping || st.last().kind == Kind::Struct)
    &&& st.last().key_next
}

/// A value may come next: a variant holds one payload only.
pub open spec fn slot_open(st: Seq<Frame>) -> bool {
    st.len() == 0 || st.last().kind != Kind::Variant || st.last().key_next
}

/// The innermost container may close: a map or struct has no key without
/// a value, and a variant has its payload.
pub open spec fn closable(f: Frame) -> bool {
    f.kind == Kind::Sequence || f.key_next == (f.kind != Kind::Variant)
}

/// The stack once a value is complete in the innermost container.
pub open spec fn after_value(st: Seq<Frame>) -> Seq<Frame> {
    if st.len() > 0 && st.last().kind != Kind::Sequence {
        st.drop_last().push(Frame { kind: st.last().kind, key_next: !st.last().key_next })
    } else {
        st
    }
}

/// One step of the engine, with `st` the open containers, innermost last,
/// and `done` telling whether the root value is complete: the new stack,
/// the new `done`, and the tokens handed to the encoder.
pub open spec fn step(c: Capabilities, max_depth: nat, st: Seq<Frame>, done: bool, t: TokenView) -> Result<
    (Seq<Frame>, bool, Seq<TokenView>),
    TranscodeError,
> {
    if done {
        Err(TranscodeError::TrailingData)
    } else {
        match shape_of(t) {
            Shape::Open => if !slot_open(st) {
                Err(TranscodeError::UnbalancedStructure)
            } else if st.len() >= max_depth {
                Err(TranscodeError::NestingTooDeep)
            } else if in_key(c, st) {
                Err(TranscodeError::Unrepresentable)
            } else {
                match degrade(c, max_depth, st.len(), t) {
                    Ok(e) => Ok((st.push(Frame { kind: kind_of(t), key_next: true }), false, e)),
                    Err(x) => Err(x),
                }
            },
            Shape::Close => if st.len() == 0 || st.last().kind != kind_of(t) || !closable(st.last()) {
                Err(TranscodeError::UnbalancedStructure)
            } else {
                match degrade(c, max_depth, st.len(), t) {
                    Ok(e) => Ok((after_value(st.drop_last()), st.len() == 1, e)),
                    Err(x) => Err(x),
                }
            },
            Shape::Prefix => if !slot_open(st) {
                Err(TranscodeError::UnbalancedStructure)
            } else {
                match degrade(c, max_depth, st.len(), t) {
                    Ok(e) => Ok((st, false, e)),
                    Err(x) => Err(x),
                }
            },
            Shape::Scalar => if !slot_open(st) {
                Err(TranscodeError::UnbalancedStructure)
            } else {
                match if in_key(c, st) {
                    degrade_key(t)
                } else {
                    degrade(c, max_depth, st.len(), t)
                } {
                    Ok(e) => Ok((after_value(st), st.len() == 0, e)),
                    Err(x) => Err(x),
                }
            },
        }
    }
}

/// The engine run over a whole token sequence from the start of a
/// document: the open containers, whether the root is complete, and all
/// the tokens handed to the encoder, in order.
pub open spec fn run(c: Capabilities, max_depth: nat, ts: Seq<TokenView>) -> Result<
    (Seq<Frame>, bool, Seq<TokenView>),
    TranscodeError,
>
    decreases ts.len(),
{
    if ts.len() == 0 {
        Ok((seq![], false, seq![]))
    } else {
        match run(c, max_depth, ts.drop_last()) {
            Ok((st, done, out)) => match step(c, max_depth, st, done, ts.last()) {
                Ok((st2, done2, e)) => Ok((st2, done2, out + e)),
                Err(x) => Err(x),
            },
            Err(x) => Err(x),
        }
    }
}

/// The result of transcoding a complete document.
pub open spec fn transcode(c: Capabilities, max_depth: nat, ts: Seq<TokenView>) -> Result<
    Seq<TokenView>,
    TranscodeError,
> {
    if ts.len() == 0 {
        Err(TranscodeError::EmptyDocument)
    } else {
        match run(c, max_depth, ts) {
            Ok((_, done, out)) => if done {
                Ok(out)
            } else {
                Err(TranscodeError::UnbalancedStructure)
            },
            Err(x) => Err(x),
        }
    }
}

/// Checks a source document before it is decoded: zero bytes of input are
/// an empty document, whatever its format would make of them.
pub fn check_input(len: usize) -> (r: Result<(), TranscodeError>)
    ensures
        r == (if len == 0 {
            Err(TranscodeError::EmptyDocument)
        } else {
            Ok::<(), TranscodeError>(())
        }),
{
    if len == 0 {
        Err(TranscodeError::EmptyDocument)
    } else {
        Ok(())
    }
}

/// The octets of `b`, each as an unsigned 8-bit integer token.
fn octet_tokens(b: &Vec<u8>) -> (r: Vec<Token>)
    ensures
        views(r@) == octets(b@),
{
    let mut r: Vec<Token> = Vec::new();
    let mut i: usize = 0;
    while i < b.len()
        invariant
            i <= b.len(),
            views(r@) == octets(b@).take(i as int),
        decreases b.len() - i,
    {
        let ghost before = r@;
        r.push(Token::Integer { value: b[i] as i128, signed: false, width: 8 });
        assert(views(r@) =~= views(before).push(octets(b@)[i as int]));
        assert(octets(b@).take(i + 1) =~= octets(b@).take(i as int).push(octets(b@)[i as int]));
        i = i + 1;
    }
    assert(octets(b@).take(i as int) =~= octets(b@));
    r
}

fn one(t: Token) -> (r: Vec<Token>)
    ensures
        views(r@) == seq![t@],
{
    let r = vec![t];
    assert(views(r@) =~= seq![t@]);
    r
}

/// Degrades one token outside a key, as `degrade` states.
pub fn degrade_token(c: Capabilities, max_depth: usize, depth: usize, t: Token) -> (r: Result<
    Vec<Token>,
    TranscodeError,
>)
    ensures
        match degrade(c, max_depth as nat, depth as nat, t@) {
            Ok(e) => r matches Ok(v) && views(v@) == e,
            Err(x) => r == Err::<Vec<Token>, TranscodeError>(x),
        },
{
    match t {
        Token::Null => if c.null {
            Ok(one(Token::Null))
        } else {
            Err(TranscodeError::Unrepresentable)
        },
        Token::Integer { value, signed, width } => if c.int_min <= value && value <= c.int_max {
            Ok(one(Token::Integer { value, signed, width }))
        } else {
            Err(TranscodeError::NumericRange)
        },
        Token::Bytes(b) => if c.bytes {
            Ok(one(Token::Bytes(b)))
        } else if depth < max_depth {
            let mut v: Vec<Token> = one(Token::SeqStart(Some(b.len())));
            let mut ints = octet_tokens(&b);
            let ghost v0 = v@;
            let ghost i0 = ints@;
            v.append(&mut ints);
            let mut close = one(Token::SeqEnd);
            let ghost v1 = v@;
            let ghost c0 = close@;
            v.append(&mut close);
            assert(views(v@) =~= views(v0) + views(i0) + views(c0)) by {
                assert(v1 =~= v0 + i0);
                assert(v@ =~= v1 + c0);
            }
            Ok(v)
        } else {
            Err(TranscodeError::NestingTooDeep)
        },
        Token::StructStart { name, fields } => if c.structs {
            Ok(one(Token::StructStart { name, fields }))
        } else {
            Ok(one(Token::MapStart(Some(fields))))
        },
        Token::StructEnd => if c.structs {
            Ok(one(Token::StructEnd))
        } else {
            Ok(one(Token::MapEnd))
        },
        Token::VariantStart { name, variant } => if c.variants {
            Ok(one(Token::VariantStart { name, variant }))
        } else {
            let v = vec![Token::MapStart(Some(1)), Token::Str(variant)];
            assert(views(v@) =~= seq![TokenView::MapStart(Some(1)), TokenView::Str(variant@)]);
            Ok(v)
        },
        Token::VariantEnd => if c.variants {
            Ok(one(Token::VariantEnd))
        } else {
            Ok(one(Token::MapEnd))
        },
        Token::UnitVariant { name, variant } => if c.variants {
            Ok(one(Token::UnitVariant { name, variant }))
        } else {
            Ok(one(Token::Str(variant)))
        },
        Token::OptionSome => if c.option {
            Ok(one(Token::OptionSome))
        } else {
            let v: Vec<Token> = Vec::new();
            assert(views(v@) =~= seq![]);
            Ok(v)
        },
        Token::OptionNone => if c.option {
            Ok(one(Token::OptionNone))
        } else if c.null {
            Ok(one(Token::Null))
        } else {
            Err(TranscodeError::Unrepresentable)
        },
        other => Ok(one(other)),
    }
}

fn digit_text(d: u128) -> (r: &'static str)
    requires
        d < 10,
    ensures
        r@ == seq![digit_char(d as nat)],
{
    proof {
        reveal_strlit("0");
        reveal_strlit("1");
        reveal_strlit("2");
        reveal_strlit("3");
        reveal_strlit("4");
        reveal_strlit("5");
        reveal_strlit("6");
        reveal_strlit("7");
        reveal_strlit("8");
        reveal_strlit("9");
    }
    let r = if d == 0 { "0" } else if d == 1 { "1" } else if d == 2 { "2" } else if d == 3 { "3" }
        else if d == 4 { "4" } else if d == 5 { "5" } else if d == 6 { "6" } else if d == 7 { "7" }
        else if d == 8 { "8" } else { "9" };
    assert(r@ =~= seq![digit_char(d as nat)]);
    r
}

fn write_digits(n: u128, out: &mut String)
    ensures
        final(out)@ == old(out)@ + digits(n as nat),
    decreases n,
{
    if n >= 10 {
        write_digits(n / 10, out);
    }
    out.append(digit_text(n % 10));
    if n >= 10 {
        assert(old(out)@ + digits((n / 10) as nat) + seq![digit_char((n % 10) as nat)] =~= old(out)@ + digits(n as nat));
    } else {
        assert(old(out)@ + seq![digit_char((n % 10) as nat)] =~= old(out)@ + digits(n as nat));
    }
}

/// The canonical decimal rendering of `v`.
pub fn decimal_text(v: i128) -> (r: String)
    ensures
        r@ == decimal(v as int),
{
    let mut r = String::new();
    if v < 0 {
        proof {
            reveal_strlit("-");
        }
        r.append("-");
        let m: u128 = (-(v + 1)) as u128 + 1;
        assert(m as nat == (-v) as nat);
        write_digits(m, &mut r);
        assert(r@ =~= seq!['-'] + digits((-v) as nat));
    } else {
        write_digits(v as u128, &mut r);
        assert(r@ =~= digits(v as nat));
    }
    r
}

/// Degrades one scalar map key, as `degrade_key` states.
pub fn degrade_key_token(t: Token) -> (r: Result<Vec<Token>, TranscodeError>)
    ensures
        match degrade_key(t@) {
            Ok(e) => r matches Ok(v) && views(v@) == e,
            Err(x) => r == Err::<Vec<Token>, TranscodeError>(x),
        },
{
    match t {
        Token::Str(s) => Ok(one(Token::Str(s))),
        Token::Integer { value, .. } => Ok(one(Token::Str(decimal_text(value)))),
        Token::Bool(b) => {
            proof {
                reveal_strlit("true");
                reveal_strlit("false");
            }
            let text = if b { "true".to_string() } else { "false".to_string() };
            assert(text@ =~= (if b { seq!['t', 'r', 'u', 'e'] } else { seq!['f', 'a', 'l', 's', 'e'] }));
            Ok(one(Token::Str(text)))
        },
        Token::UnitVariant { variant, .. } => Ok(one(Token::Str(variant))),
        Token::Null | Token::OptionNone => {
            proof {
                reveal_strlit("null");
            }
            let text = "null".to_string();
            assert(text@ =~= seq!['n', 'u', 'l', 'l']);
            Ok(one(Token::Str(text)))
        },
        _ => Err(TranscodeError::Unrepresentable),
    }
}

/// The streaming engine: it takes the tokens of one document one at a time
/// and keeps only the open containers.
#[derive(Debug)]
pub struct Engine {
    pub caps: Capabilities,
    pub max_depth: usize,
    /// The open containers, innermost last.
    pub stack: Vec<Frame>,
    /// The root value is complete.
    pub done: bool,
    /// At least one token was taken.
    pub seen: bool,
}

impl Engine {
    pub fn new(caps: Capabilities, max_depth: usize) -> (r: Engine)
        ensures
            r.caps == caps,
            r.max_depth == max_depth,
            r.stack@ == Seq::<Frame>::empty(),
            !r.done,
            !r.seen,
    {
        Engine { caps, max_depth, stack: Vec::new(), done: false, seen: false }
    }

    /// The current nesting depth.
    pub fn depth(&self) -> (r: usize)
        ensures
            r == self.stack@.len(),
    {
        self.stack.len()
    }

    fn advance(&mut self)
        ensures
            final(self).stack@ == after_value(old(self).stack@),
            final(self).caps == old(self).caps,
            final(self).max_depth == old(self).max_depth,
            final(self).done == old(self).done,
            final(self).seen == old(self).seen,
    {
        let n = self.stack.len();
        if n > 0 && self.stack[n - 1].kind != Kind::Sequence {
            let f = self.stack[n - 1];
            self.stack.pop();
            self.stack.push(Frame { kind: f.kind, key_next: !f.key_next });
        }
    }

    /// Takes the next token of the document and returns what the encoder
    /// receives for it. On an error the engine is left as it was.
    pub fn push(&mut self, t: Token) -> (r: Result<Vec<Token>, TranscodeError>)
        ensures
            match step(old(self).caps, old(self).max_depth as nat, old(self).stack@, old(self).done, t@) {
                Ok((st, done, e)) => {
                    &&& r matches Ok(v) && views(v@) == e
                    &&& final(self).stack@ == st
                    &&& final(self).done == done
                    &&& final(self).seen
                    &&& final(self).caps == old(self).caps
                    &&& final(self).max_depth == old(self).max_depth
                },
                Err(x) => r == Err::<Vec<Token>, TranscodeError>(x) && *final(self) == *old(self),
            },
    {
        if self.done {
            return Err(TranscodeError::TrailingData);
        }
        let shape = t.shape();
        let kind = t.kind();
        let depth = self.stack.len();
        let slot = depth == 0 || self.stack[depth - 1].kind != Kind::Variant
            || self.stack[depth - 1].key_next;
        let key = self.caps.string_keys && depth > 0 && (self.stack[depth - 1].kind == Kind::Mapping
            || self.stack[depth - 1].kind == Kind::Struct) && self.stack[depth - 1].key_next;
        match shape {
            Shape::Open => {
                if !slot {
                    return Err(TranscodeError::UnbalancedStructure);
                }
                if depth >= self.max_depth {
                    return Err(TranscodeError::NestingTooDeep);
                }
                if key {
                    return Err(TranscodeError::Unrepresentable);
                }
                let e = degrade_token(self.caps, self.max_depth, depth, t)?;
                self.stack.push(Frame { kind, key_next: true });
                self.seen = true;
                Ok(e)
            },
            Shape::Close => {
                if depth == 0 {
                    return Err(TranscodeError::UnbalancedStructure);
                }
                let top = self.stack[depth - 1];
                if top.kind != kind || !(top.kind == Kind::Sequence || top.key_next == (top.kind
                    != Kind::Variant)) {
                    return Err(TranscodeError::UnbalancedStructure);
                }
                let e = degrade_token(self.caps, self.max_depth, depth, t)?;
                self.stack.pop();
                self.advance();
                self.done = depth == 1;
                self.seen = true;
                Ok(e)
            },
            Shape::Prefix => {
                if !slot {
                    return Err(TranscodeError::UnbalancedStructure);
                }
                let e = degrade_token(self.caps, self.max_depth, depth, t)?;
                self.seen = true;
                Ok(e)
            },
            Shape::Scalar => {
                if !slot {
                    return Err(TranscodeError::UnbalancedStructure);
                }
                let e = if key {
                    degrade_key_token(t)?
                } else {
                    degrade_token(self.caps, self.max_depth, depth, t)?
                };
                self.advance();
                self.done = depth == 0;
                self.seen = true;
                Ok(e)
            },
        }
    }

    /// Ends the document: it must hold a complete root value.
    pub fn finish(&self) -> (r: Result<(), TranscodeError>)
        ensures
            r == (if self.done {
                Ok::<(), TranscodeError>(())
            } else if !self.seen {
                Err(TranscodeError::EmptyDocument)
            } else {
                Err(TranscodeError::UnbalancedStructure)
            }),
    {
        if self.done {
            Ok(())
        } else if !self.seen {
            Err(TranscodeError::EmptyDocument)
        } else {
            Err(TranscodeError::UnbalancedStructure)
        }
    }
}

/// Transcodes a complete document held as a token sequence.
pub fn transcode_tokens(ts: Vec<Token>, caps: Capabilities, max_depth: usize) -> (r: Result<
    Vec<Token>,
    TranscodeError,
>)
    ensures
        match transcode(caps, max_depth as nat, views(ts@)) {
            Ok(o) => r matches Ok(v) && views(v@) == o,
            Err(x) => r == Err::<Vec<Token>, TranscodeError>(x),
        },
{
    let ghost toks = ts@;
    let ghost all = views(ts@);
    let mut rest = ts;
    let mut engine = Engine::new(caps, max_depth);
    let mut out: Vec<Token> = Vec::new();
    let mut i: usize = 0;
    assert(all.take(0) =~= seq![]);
    assert(views(out@) =~= seq![]);
    assert(all.len() == rest.len());
    while rest.len() > 0
        invariant
            i <= all.len(),
            all.len() <= usize::MAX,
            all == views(toks),
            toks == ts@,
            rest@ == toks.skip(i as int),
            engine.caps == caps,
            engine.max_depth == max_depth,
            engine.seen == (i > 0),
            run(caps, max_depth as nat, all.take(i as int)) == Ok::<
                (Seq<Frame>, bool, Seq<TokenView>),
                TranscodeError,
            >((engine.stack@, engine.done, views(out@))),
        decreases rest.len(),
    {
        let t = rest.remove(0);
        assert(t == toks[i as int]);
        assert(t@ == all[i as int]);
        assert(all.take(i + 1).drop_last() =~= all.take(i as int));
        assert(all.take(i + 1).last() == all[i as int]);
        match engine.push(t) {
            Ok(mut e) => {
                let ghost o0 = out@;
                let ghost e0 = e@;
                out.append(&mut e);
                assert(views(out@) =~= views(o0) + views(e0));
            },
            Err(x) => {
                assert(run(caps, max_depth as nat, all.take(i + 1)) == Err::<
                    (Seq<Frame>, bool, Seq<TokenView>),
                    TranscodeError,
                >(x));
                proof {
                    lemma_run_err_extends(caps, max_depth as nat, all, i as int + 1);
                    assert(all.len() > 0);
                }
                return Err(x);
            },
        }
        assert(toks.skip(i + 1) =~= toks.skip(i as int).drop_first());
        i = i + 1;
    }
    assert(all.take(i as int) =~= all);
    engine.finish()?;
    Ok(out)
}

/// Once the engine fails on a prefix, it fails on the whole sequence with
/// the same error.
pub proof fn lemma_run_err_extends(c: Capabilities, max_depth: nat, ts: Seq<TokenView>, n: int)
    requires
        0 <= n <= ts.len(),
        run(c, max_depth, ts.take(n)) is Err,
    ensures
        run(c, max_depth, ts) == run(c, max_depth, ts.take(n)),
    decreases ts.len() - n,
{
    if n < ts.len() {
        assert(ts.take(n + 1).drop_last() =~= ts.take(n));
        lemma_run_err_extends(c, max_depth, ts, n + 1);
    } else {
        assert(ts.take(n) =~= ts);
    }
}

} // verus!
