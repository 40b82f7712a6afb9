//! The deprecation-report index family.

use vstd::prelude::*;
use crate::traits::ElasticIndex;

verus! {

/// One record of the deprecation-report index: who called what from where,
/// at which production level, with the logged message and call stack.
/// Decoding a raw catalog record into this shape happens outside the
/// library.
#[derive(Debug)]
pub struct Deprecate {
    pub callee: String,
    pub location: String,
    pub role: String,
    pub show: Option<String>,
    pub sequence: Option<String>,
    pub shot: Option<String>,
    pub label: String,
    pub callstack: String,
    pub message: String,
    pub user: String,
}

impl Deprecate {
    /// The production level of the record: the show, sequence and shot
    /// parts that are present, joined by dots.
    pub open spec fn spec_level(self) -> Seq<char> {
        let l0 = if self.show is Some {
            self.show->0@
        } else {
            Seq::<char>::empty()
        };
        let l1 = if self.sequence is Some {
            l0 + "."@ + self.sequence->0@
        } else {
            l0
        };
        if self.shot is Some {
            l1 + "."@ + self.shot->0@
        } else {
            l1
        }
    }

    /// The text of the record as presented to the operator: user, level,
    /// role, location, then the message and the call stack on their own
    /// lines.
    pub open spec fn spec_describe(self) -> Seq<char> {
        "user: "@ + self.user@ + "\nlevel: "@ + self.spec_level() + "\nrole: "@ + self.role@
            + "\nlocation: "@ + self.location@ + "\n\nmessage:\n"@ + self.message@
            + "\n\ncallstack:\n"@ + self.callstack@ + "\n"@
    }

    /// Renders the record for the operator; mirrors `spec_describe`.
    pub fn describe(&self) -> (r: String)
        ensures
            r@ == self.spec_describe(),
    {
        let mut level = String::new();
        match &self.show {
            Some(s) => {
                level.append(s.as_str());
            },
            None => {},
        }
        match &self.sequence {
            Some(s) => {
                level.append(".");
                level.append(s.as_str());
            },
            None => {},
        }
        match &self.shot {
            Some(s) => {
                level.append(".");
                level.append(s.as_str());
            },
            None => {},
        }
        proof {
            assert(level@ =~= self.spec_level());
        }
        let mut out = String::from_str("user: ");
        out.append(self.user.as_str());
        out.append("\nlevel: ");
        out.append(level.as_str());
        out.append("\nrole: ");
        out.append(self.role.as_str());
        out.append("\nlocation: ");
        out.append(self.location.as_str());
        out.append("\n\nmessage:\n");
        out.append(self.message.as_str());
        out.append("\n\ncallstack:\n");
        out.append(self.callstack.as_str());
        out.append("\n");
        proof {
            assert(out@ =~= self.spec_describe());
        }
        out
    }
}

impl ElasticIndex for Deprecate {
    /// The declared base name of the family.
    open spec fn spec_name() -> Seq<char> {
        "deprecate"@
    }

    fn family_name() -> (r: String) {
        String::from_str("deprecate")
    }
}

} // verus!
