//! Plain domain values that travel between the resolvers and the caller.

use vstd::prelude::*;

verus! {

/// A namespaced product property.
pub struct Attribute {
    pub namespace: String,
    pub key: String,
    pub value: String,
}

impl Clone for Attribute {
    /// A clone equals the original attribute.
    fn clone(&self) -> (r: Self)
        ensures
            r == *self,
    {
        Attribute {
            namespace: self.namespace.clone(),
            key: self.key.clone(),
            value: self.value.clone(),
        }
    }
}

/// The caller's input for creating a product.
pub struct CreateProductInput {
    pub name: String,
    pub slug: String,
    pub description: Option<String>,
    pub status: String,
}

} // verus!
