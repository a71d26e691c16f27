//! Shapes, tokens and the capability interface through which callers describe
//! the extensions they want recognised.

use vstd::prelude::*;

verus! {

/// How an extension is written in the input. Each shape carries the literal
/// that identifies the extension.
#[derive(Debug)]
pub enum ExtensionShape {
    /// The literal alone; it decodes to itself.
    Tag(String),
    /// The literal followed by a non-empty run of characters that stops
    /// before the next delimiter; it decodes to the literal and the run.
    Prefix(String),
    /// The literal alone, standing for a fixed list of tokens.
    Multi(String),
}

/// The mathematical value of an [`ExtensionShape`]: the same three shapes
/// over sequences of characters.
pub ghost enum ShapeModel {
    Tag(Seq<char>),
    Prefix(Seq<char>),
    Multi(Seq<char>),
}

impl ShapeModel {
    /// The identifying literal, whichever the shape.
    pub open spec fn literal(self) -> Seq<char> {
        match self {
            ShapeModel::Tag(l) => l,
            ShapeModel::Prefix(l) => l,
            ShapeModel::Multi(l) => l,
        }
    }
}

impl View for ExtensionShape {
    type V = ShapeModel;

    open spec fn view(&self) -> ShapeModel {
        match self {
            ExtensionShape::Tag(l) => ShapeModel::Tag(l@),
            ExtensionShape::Prefix(l) => ShapeModel::Prefix(l@),
            ExtensionShape::Multi(l) => ShapeModel::Multi(l@),
        }
    }
}

impl ExtensionShape {
    /// The identifying literal, whichever the shape.
    pub fn identifier(&self) -> (id: &str)
        ensures
            id@ == self@.literal(),
    {
        match self {
            ExtensionShape::Tag(i) => i.as_str(),
            ExtensionShape::Prefix(i) => i.as_str(),
            ExtensionShape::Multi(i) => i.as_str(),
        }
    }
}

/// One decoded token: an owned string.
#[derive(Debug)]
pub struct Extension(pub String);

impl View for Extension {
    type V = Seq<char>;

    open spec fn view(&self) -> Seq<char> {
        self.0@
    }
}

/// The texts of a list of tokens, in order.
pub open spec fn texts(tokens: Seq<Extension>) -> Seq<Seq<char>> {
    tokens.map_values(|t: Extension| t@)
}

/// The texts of two lists of tokens laid end to end are the texts of the
/// first followed by the texts of the second.
pub proof fn lemma_texts_concat(a: Seq<Extension>, b: Seq<Extension>)
    ensures
        texts(a + b) == texts(a) + texts(b),
{
    assert(texts(a + b) =~= texts(a) + texts(b));
}

/// A capability: something that reports the shape of one extension and
/// produces the tokens that extension stands for.
///
/// The decoder never looks at the concrete type behind a capability. Its
/// contracts speak of a capability through `shape` and `tokens`, the values
/// that the two operations return. That a given implementation does return
/// them is proved where the implementation is verified, and is taken on
/// trust where it is not: both operations have to be functions of the
/// capability alone, returning the same value on every call.
pub trait IntoExtensionShape {
    /// The shape that `into_shape` reports. A verified implementation
    /// overrides this with the value it returns; the default leaves it
    /// unspecified.
    open spec fn shape(&self) -> ShapeModel {
        arbitrary()
    }

    /// The texts of the tokens that `generate` produces. A verified
    /// implementation overrides this with the value it returns; the default
    /// leaves it unspecified.
    open spec fn tokens(&self) -> Seq<Seq<char>> {
        arbitrary()
    }

    /// Reports the shape of the extension, fresh on each call.
    fn into_shape(&self) -> (s: ExtensionShape)
        ensures
            s@ == self.shape(),
    ;

    /// Produces the tokens the extension stands for. The decoder calls this
    /// only after a `Multi` shape has matched, and never tells it what text
    /// was matched.
    fn generate(&self) -> (v: Vec<Extension>)
        ensures
            texts(v@) == self.tokens(),
    ;
}

/// What the decoder knows of a capability: the shape it reports and the
/// tokens it produces.
pub ghost struct CapabilityModel {
    pub shape: ShapeModel,
    pub tokens: Seq<Seq<char>>,
}

/// The model of one capability.
pub open spec fn model_of<C: IntoExtensionShape + ?Sized>(ext: &C) -> CapabilityModel {
    CapabilityModel { shape: ext.shape(), tokens: ext.tokens() }
}

/// The model of an ordered pool of capabilities.
pub open spec fn pool_model(pool: Seq<&dyn IntoExtensionShape>) -> Seq<CapabilityModel> {
    Seq::new(pool.len(), |i: int| model_of(pool[i]))
}

} // verus!
