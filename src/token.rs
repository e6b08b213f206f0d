//! The format-agnostic vocabulary of decode events.
use vstd::prelude::*;

verus! {

/// One atomic structural or scalar event of a document.
///
/// Integers carry their value together with the signedness and bit width
/// the source declared; floats carry their IEEE-754 bit pattern.
#[derive(Debug, Clone, PartialEq, Eq)]
pub enum Token {
    Null,
    Bool(bool),
    Integer { value: i128, signed: bool, width: u8 },
    Float { bits: u64, width: u8 },
    Str(String),
    Bytes(Vec<u8>),
    SeqStart(Option<usize>),
    SeqEnd,
    MapStart(Option<usize>),
    MapEnd,
    StructStart { name: String, fields: usize },
    StructEnd,
    VariantStart { name: String, variant: String },
    VariantEnd,
    UnitVariant { name: String, variant: String },
    OptionSome,
    OptionNone,
}

/// The mathematical value of a token: its text and octets as sequences.
pub enum TokenView {
    Null,
    Bool(bool),
    Integer { value: i128, signed: bool, width: u8 },
    Float { bits: u64, width: u8 },
    Str(Seq<char>),
    Bytes(Seq<u8>),
    SeqStart(Option<usize>),
    SeqEnd,
    MapStart(Option<usize>),
    MapEnd,
    StructStart { name: Seq<char>, fields: usize },
    StructEnd,
    VariantStart { name: Seq<char>, variant: Seq<char> },
    VariantEnd,
    UnitVariant { name: Seq<char>, variant: Seq<char> },
    OptionSome,
    OptionNone,
}

impl View for Token {
    type V = TokenView;

    open spec fn view(&self) -> TokenView {
        match self {
            Token::Null => TokenView::Null,
            Token::Bool(b) => TokenView::Bool(*b),
            Token::Integer { value, signed, width } => TokenView::Integer {
                value: *value,
                signed: *signed,
                width: *width,
            },
            Token::Float { bits, width } => TokenView::Float { bits: *bits, width: *width },
            Token::Str(s) => TokenView::Str(s@),
            Token::Bytes(b) => TokenView::Bytes(b@),
            Token::SeqStart(n) => TokenView::SeqStart(*n),
            Token::SeqEnd => TokenView::SeqEnd,
            Token::MapStart(n) => TokenView::MapStart(*n),
            Token::MapEnd => TokenView::MapEnd,
            Token::StructStart { name, fields } => TokenView::StructStart {
                name: name@,
                fields: *fields,
            },
            Token::StructEnd => TokenView::StructEnd,
            Token::VariantStart { name, variant } => TokenView::VariantStart {
                name: name@,
                variant: variant@,
            },
            Token::VariantEnd => TokenView::VariantEnd,
            Token::UnitVariant { name, variant } => TokenView::UnitVariant {
                name: name@,
                variant: variant@,
            },
            Token::OptionSome => TokenView::OptionSome,
            Token::OptionNone => TokenView::OptionNone,
        }
    }
}

/// The views of a token sequence.
pub open spec fn views(s: Seq<Token>) -> Seq<TokenView> {
    s.map_values(|t: Token| t@)
}

/// The kind of container that an open or close token belongs to.
#[derive(Debug, Clone, Copy, PartialEq, Eq, Structural)]
pub enum Kind {
    Sequence,
    Mapping,
    Struct,
    Variant,
}

/// The container kind of an open or close token (`Sequence` for any other).
pub open spec fn kind_of(t: TokenView) -> Kind {
    match t {
        TokenView::MapStart(_) | TokenView::MapEnd => Kind::Mapping,
        TokenView::StructStart { .. } | TokenView::StructEnd => Kind::Struct,
        TokenView::VariantStart { .. } | TokenView::VariantEnd => Kind::Variant,
        _ => Kind::Sequence,
    }
}

/// How a token moves the nesting depth.
#[derive(Debug, Clone, Copy, PartialEq, Eq, Structural)]
pub enum Shape {
    /// Opens a container.
    Open,
    /// Closes a container.
    Close,
    /// Marks that the next value is present; not a value of its own.
    Prefix,
    /// A complete value by itself.
    Scalar,
}

pub open spec fn shape_of(t: TokenView) -> Shape {
    match t {
        TokenView::SeqStart(_) | TokenView::MapStart(_) | TokenView::StructStart { .. }
        | TokenView::VariantStart { .. } => Shape::Open,
        TokenView::SeqEnd | TokenView::MapEnd | TokenView::StructEnd | TokenView::VariantEnd => Shape::Close,
        TokenView::OptionSome => Shape::Prefix,
        _ => Shape::Scalar,
    }
}

/// The change of nesting depth that a token makes.
pub open spec fn delta(t: TokenView) -> int {
    match shape_of(t) {
        Shape::Open => 1,
        Shape::Close => -1,
        _ => 0,
    }
}

impl Token {
    pub fn kind(&self) -> (r: Kind)
        ensures
            r == kind_of(self@),
    {
        match self {
            Token::MapStart(_) | Token::MapEnd => Kind::Mapping,
            Token::StructStart { .. } | Token::StructEnd => Kind::Struct,
            Token::VariantStart { .. } | Token::VariantEnd => Kind::Variant,
            _ => Kind::Sequence,
        }
    }

    pub fn shape(&self) -> (r: Shape)
        ensures
            r == shape_of(self@),
    {
        match self {
            Token::SeqStart(_) | Token::MapStart(_) | Token::StructStart { .. }
            | Token::VariantStart { .. } => Shape::Open,
            Token::SeqEnd | Token::MapEnd | Token::StructEnd | Token::VariantEnd => Shape::Close,
            Token::OptionSome => Shape::Prefix,
            _ => Shape::Scalar,
        }
    }
}

/// Walks a token sequence from depth `d`: the depth at its end, or `None`
/// where the depth would go negative on the way.
pub open spec fn walk(d: int, s: Seq<TokenView>) -> Option<int>
    decreases s.len(),
{
    if s.len() == 0 {
        Some(d)
    } else if d + delta(s[0]) < 0 {
        None
    } else {
        walk(d + delta(s[0]), s.drop_first())
    }
}

/// Every prefix has non-negative depth and the whole returns to depth zero.
pub open spec fn balanced(s: Seq<TokenView>) -> bool {
    walk(0, s) == Some(0int)
}

pub open spec fn count_opens(s: Seq<TokenView>) -> nat
    decreases s.len(),
{
    if s.len() == 0 {
        0
    } else {
        (if shape_of(s[0]) == Shape::Open { 1nat } else { 0nat }) + count_opens(s.drop_first())
    }
}

pub open spec fn count_closes(s: Seq<TokenView>) -> nat
    decreases s.len(),
{
    if s.len() == 0 {
        0
    } else {
        (if shape_of(s[0]) == Shape::Close { 1nat } else { 0nat }) + count_closes(s.drop_first())
    }
}

/// Walking a concatenation walks the first part, then the second.
pub proof fn lemma_walk_append(d: int, a: Seq<TokenView>, b: Seq<TokenView>)
    ensures
        walk(d, a + b) == (match walk(d, a) {
            Some(e) => walk(e, b),
            None => None,
        }),
    decreases a.len(),
{
    if a.len() == 0 {
        assert(a + b =~= b);
    } else {
        assert((a + b).drop_first() =~= a.drop_first() + b);
        lemma_walk_append(d + delta(a[0]), a.drop_first(), b);
    }
}

/// The depth at the end of a walk is the start plus opens less closes.
pub proof fn lemma_walk_counts(d: int, s: Seq<TokenView>)
    ensures
        walk(d, s) matches Some(e) ==> e == d + count_opens(s) - count_closes(s),
    decreases s.len(),
{
    if s.len() > 0 {
        lemma_walk_counts(d + delta(s[0]), s.drop_first());
    }
}

/// The number of tokens that the value tree at the front of `s` takes,
/// starting inside `d` open containers; `None` where no value ends.
pub open spec fn tree_len(s: Seq<TokenView>, d: nat) -> Option<nat>
    decreases s.len(),
{
    if s.len() == 0 || (shape_of(s[0]) == Shape::Close && d == 0) {
        None
    } else {
        let d2: nat = match shape_of(s[0]) {
            Shape::Open => d + 1,
            Shape::Close => (d - 1) as nat,
            _ => d,
        };
        if d2 == 0 && (shape_of(s[0]) == Shape::Scalar || shape_of(s[0]) == Shape::Close) {
            Some(1)
        } else {
            match tree_len(s.drop_first(), d2) {
                Some(n) => Some(n + 1),
                None => None,
            }
        }
    }
}

pub open spec fn shifted(o: Option<nat>, i: nat) -> Option<nat> {
    match o {
        Some(n) => Some(n + i),
        None => None,
    }
}

/// The number of tokens that the value tree at the front of `ts` takes.
pub fn value_extent(ts: &[Token]) -> (r: Option<usize>)
    ensures
        match tree_len(views(ts@), 0) {
            Some(n) => r == Some(n as usize),
            None => r is None,
        },
{
    let ghost all = views(ts@);
    let mut i: usize = 0;
    let mut d: usize = 0;
    assert(all.skip(0) =~= all);
    while i < ts.len()
        invariant
            i <= ts@.len(),
            d <= i,
            all == views(ts@),
            tree_len(all, 0) == shifted(tree_len(all.skip(i as int), d as nat), i as nat),
        decreases ts@.len() - i,
    {
        let sh = ts[i].shape();
        assert(all.skip(i as int)[0] == ts@[i as int]@);
        if sh == Shape::Close && d == 0 {
            return None;
        }
        let d2: usize = match sh {
            Shape::Open => d + 1,
            Shape::Close => d - 1,
            _ => d,
        };
        if d2 == 0 && (sh == Shape::Scalar || sh == Shape::Close) {
            return Some(i + 1);
        }
        assert(all.skip(i as int).drop_first() =~= all.skip(i + 1));
        d = d2;
        i = i + 1;
    }
    assert(all.skip(i as int).len() == 0);
    None
}

} // verus!
