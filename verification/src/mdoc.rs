//! Start of an interface for the mdoc semantic macro language.
//!
//! mdoc is the BSD manual markup consumed by `mandoc`; only the document
//! preamble is covered so far.

use crate::roff::Roff;
use crate::roff::control_entries;
use vstd::prelude::*;

verus! {

/// Mandoc document.
#[derive(Debug, Clone)]
pub struct MDoc {
    roff: Roff,
}

impl MDoc {
    /// The tagged slices of the underlying ROFF document.
    pub closed spec fn entries(self) -> Seq<(crate::roff::Escape, Seq<char>)> {
        self.roff.entries()
    }

    /// The underlying ROFF document is well formed.
    pub closed spec fn wf(self) -> bool {
        self.roff.wf()
    }

    /// Create a new mdoc document with its preamble and NAME section
    /// macros: document date, title, name and one-line description.
    pub fn new(date: &str, title: &str, name: &str, description: &str) -> (r: Self)
        ensures
            r.wf(),
            r.entries() == control_entries("Dd"@, seq![date@]) + control_entries(
                "Dt"@,
                seq![title@],
            ) + control_entries("Os"@, Seq::empty()) + control_entries("Nm"@, seq![name@])
                + control_entries("Nd"@, seq![description@]),
    {
        let mut roff = Roff::new();
        roff.control1("Dd", date);
        roff.control1("Dt", title);
        roff.control0("Os");
        roff.control1("Nm", name);
        roff.control1("Nd", description);
        proof {
            assert(roff.entries() =~= control_entries("Dd"@, seq![date@]) + control_entries(
                "Dt"@,
                seq![title@],
            ) + control_entries("Os"@, Seq::empty()) + control_entries("Nm"@, seq![name@])
                + control_entries("Nd"@, seq![description@]));
        }
        MDoc { roff }
    }
}

} // verus!
