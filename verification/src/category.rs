//! Product categories.
use vstd::prelude::*;
use crate::product::clone_opt_string;

verus! {

#[derive(Debug)]
pub struct Category {
    pub id: u64,
    pub name: String,
    pub description: Option<String>,
    pub created_at: u64,
}

impl Category {
    /// A field-for-field copy.
    pub fn duplicate(&self) -> (r: Category)
        ensures
            r == *self,
    {
        Category {
            id: self.id,
            name: self.name.clone(),
            description: clone_opt_string(&self.description),
            created_at: self.created_at,
        }
    }
}

pub struct CreateCategoryRequest {
    pub name: String,
    pub description: Option<String>,
}

pub struct UpdateCategoryRequest {
    pub id: u64,
    pub name: Option<String>,
    pub description: Option<String>,
}

} // verus!
