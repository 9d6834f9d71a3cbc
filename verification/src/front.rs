//! The data behind the browser-facing pages: each function assembles the
//! plain values one page renders, with the template engine left to the
//! caller.

use vstd::prelude::*;

pub mod client_all;
pub mod client_key;
pub mod index;
pub mod key;

use crate::database::users::TableUsers;

verus! {

/// The signed-in operator as the pages show it.
#[derive(Clone, Debug)]
pub struct UserInfo {
    pub name: String,
    pub id: i64,
}

impl From<TableUsers> for UserInfo {
    fn from(value: TableUsers) -> (r: Self) {
        UserInfo { name: value.name, id: value.id.0 }
    }
}

impl vstd::std_specs::convert::FromSpecImpl<TableUsers> for UserInfo {
    open spec fn obeys_from_spec() -> bool {
        true
    }

    open spec fn from_spec(value: TableUsers) -> Self {
        UserInfo { name: value.name, id: value.id.0 }
    }
}

} // verus!
