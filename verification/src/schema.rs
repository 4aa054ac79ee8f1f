//! The schema side of the data model: primitive types, properties, entities.

use vstd::prelude::*;

verus! {

/// The closed set of property types the mock service can synthesize.
/// Any other declared type is dropped during extraction.
#[derive(Clone, Copy, PartialEq, Eq, Structural, Debug)]
pub enum PrimitiveType {
    Boolean,
    Number,
    String,
}

/// Mathematical view of a `Property`.
pub struct PropertyView {
    pub name: Seq<char>,
    pub ty: PrimitiveType,
}

/// One field of a mock endpoint's schema: an identifier and its primitive type.
#[derive(Clone, Debug)]
pub struct Property {
    pub name: String,
    pub ty: PrimitiveType,
}

impl View for Property {
    type V = PropertyView;

    open spec fn view(&self) -> PropertyView {
        PropertyView { name: self.name@, ty: self.ty }
    }
}

/// Mathematical view of an `Entity`.
pub struct EntityView {
    pub route: Seq<char>,
    pub props: Seq<PropertyView>,
}

/// The schema for one mock endpoint: a route path plus an ordered list of
/// properties, in source declaration order.
#[derive(Clone, Debug)]
pub struct Entity {
    pub route: String,
    pub props: Vec<Property>,
}

impl View for Entity {
    type V = EntityView;

    open spec fn view(&self) -> EntityView {
        EntityView { route: self.route@, props: self.props@.map_values(|p: Property| p@) }
    }
}

} // verus!
