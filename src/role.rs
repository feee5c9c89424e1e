//! Roles that a connection or a token grants, and what the roster records
//! of each client.

use crate::text::str_eq;
use vstd::prelude::*;

verus! {

/// What a client may do in a session: an editor changes the document, a
/// viewer only watches it.
#[derive(Clone, Copy, Debug, PartialEq, Eq, Structural, Hash)]
pub enum ClientRole {
    Editor,
    Viewer,
}

/// The six characters `editor`.
pub open spec fn editor_name() -> Seq<char> {
    seq!['e', 'd', 'i', 't', 'o', 'r']
}

/// The six characters `viewer`.
pub open spec fn viewer_name() -> Seq<char> {
    seq!['v', 'i', 'e', 'w', 'e', 'r']
}

/// The role that a lowercase role name stands for.
pub open spec fn role_named(s: Seq<char>) -> Option<ClientRole> {
    if s == editor_name() {
        Some(ClientRole::Editor)
    } else if s == viewer_name() {
        Some(ClientRole::Viewer)
    } else {
        None
    }
}

impl ClientRole {
    /// An editor's grant covers both roles; a viewer's covers viewing only.
    pub open spec fn covers_spec(self, required: ClientRole) -> bool {
        self == ClientRole::Editor || required == ClientRole::Viewer
    }

    /// Whether a grant of this role satisfies a demand for `required`.
    pub fn covers(self, required: ClientRole) -> (r: bool)
        ensures
            r == self.covers_spec(required),
    {
        match self {
            ClientRole::Editor => true,
            ClientRole::Viewer => match required {
                ClientRole::Viewer => true,
                ClientRole::Editor => false,
            },
        }
    }

    /// The lowercase name of the role.
    pub open spec fn name_spec(self) -> Seq<char> {
        match self {
            ClientRole::Editor => editor_name(),
            ClientRole::Viewer => viewer_name(),
        }
    }

    /// Reads a role from its lowercase name; any other text is no role.
    pub fn from_name(name: &str) -> (r: Option<ClientRole>)
        ensures
            r == role_named(name@),
    {
        proof {
            reveal_strlit("editor");
            reveal_strlit("viewer");
            assert("editor"@ =~= editor_name());
            assert("viewer"@ =~= viewer_name());
        }
        if str_eq(name, "editor") {
            Some(ClientRole::Editor)
        } else if str_eq(name, "viewer") {
            Some(ClientRole::Viewer)
        } else {
            None
        }
    }

    /// The role a connection asks for through its `role` query parameter:
    /// `viewer` asks for viewing, anything else or nothing for editing.
    pub fn from_query(role: Option<&str>) -> (r: ClientRole)
        ensures
            r == (if role is Some && role->Some_0@ == viewer_name() {
                ClientRole::Viewer
            } else {
                ClientRole::Editor
            }),
    {
        match role {
            Some(name) => {
                proof {
                    reveal_strlit("viewer");
                    assert("viewer"@ =~= viewer_name());
                }
                if str_eq(name, "viewer") {
                    ClientRole::Viewer
                } else {
                    ClientRole::Editor
                }
            },
            None => ClientRole::Editor,
        }
    }
}

/// A roster entry: who a client is, how it is drawn, and its role.
#[derive(Debug)]
pub struct ClientInfo {
    pub id: String,
    pub name: String,
    pub color: String,
    pub role: ClientRole,
}

impl Clone for ClientInfo {
    fn clone(&self) -> (r: Self)
        ensures
            r == *self,
    {
        ClientInfo {
            id: self.id.clone(),
            name: self.name.clone(),
            color: self.color.clone(),
            role: self.role,
        }
    }
}

} // verus!
