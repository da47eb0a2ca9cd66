//! User profile information.

use vstd::prelude::*;

verus! {

/// User profile information.
pub struct User {
    pub id: String,
    pub display_name: String,
    pub email: Option<String>,
}

} // verus!
