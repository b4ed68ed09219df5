//! Access-permission flags for mappings.
//!
//! `FlagBuilder` is the unchecked, freely mutable shape; `Flags` is the
//! validated, immutable value. The only way to obtain a `Flags` is
//! `FlagBuilder::validate`, which rejects the one contradictory combination:
//! a mapping cannot be both `private` and `shared`.

use vstd::prelude::*;

use crate::error::AsError;

verus! {

/// The mathematical value of a flag set: six independent booleans.
#[verifier::ext_equal]
pub ghost struct FlagsView {
    pub read: bool,
    pub write: bool,
    pub execute: bool,
    pub cow: bool,
    pub private: bool,
    pub shared: bool,
}

/// The flag set with every capability off.
pub open spec fn no_flags() -> FlagsView {
    FlagsView {
        read: false,
        write: false,
        execute: false,
        cow: false,
        private: false,
        shared: false,
    }
}

/// Per-field boolean or: the union of the rights of `a` and `b`.
pub open spec fn union_flags(a: FlagsView, b: FlagsView) -> FlagsView {
    FlagsView {
        read: a.read || b.read,
        write: a.write || b.write,
        execute: a.execute || b.execute,
        cow: a.cow || b.cow,
        private: a.private || b.private,
        shared: a.shared || b.shared,
    }
}

/// Per-field `a && !b`: the rights of `a` with those of `b` turned off.
pub open spec fn minus_flags(a: FlagsView, b: FlagsView) -> FlagsView {
    FlagsView {
        read: a.read && !b.read,
        write: a.write && !b.write,
        execute: a.execute && !b.execute,
        cow: a.cow && !b.cow,
        private: a.private && !b.private,
        shared: a.shared && !b.shared,
    }
}

/// A flag set is coherent when it does not claim to be both private and
/// shared at once.
pub open spec fn flags_wf(v: FlagsView) -> bool {
    !(v.private && v.shared)
}

/// An unchecked set of access-permission bits, assembled incrementally and
/// turned into a validated `Flags` by `validate`.
#[derive(Clone, Copy, Debug, PartialEq, Eq, Structural)]
pub struct FlagBuilder {
    pub read: bool,
    pub write: bool,
    pub execute: bool,
    pub cow: bool,
    pub private: bool,
    pub shared: bool,
}

impl View for FlagBuilder {
    type V = FlagsView;

    open spec fn view(&self) -> FlagsView {
        FlagsView {
            read: self.read,
            write: self.write,
            execute: self.execute,
            cow: self.cow,
            private: self.private,
            shared: self.shared,
        }
    }
}

impl FlagBuilder {
    /// A builder with every flag off.
    pub fn new() -> (r: FlagBuilder)
        ensures
            r@ == no_flags(),
    {
        FlagBuilder {
            read: false,
            write: false,
            execute: false,
            cow: false,
            private: false,
            shared: false,
        }
    }

    /// Check the builder and freeze it into an immutable `Flags`.
    ///
    /// Fails with `InvalidFlags` exactly when both `private` and `shared`
    /// are set.
    pub fn validate(self) -> (r: Result<Flags, AsError>)
        ensures
            flags_wf(self@) ==> (r matches Ok(f) && f@ == self@),
            !flags_wf(self@) ==> r === Err(AsError::InvalidFlags),
    {
        if self.private && self.shared {
            return Err(AsError::InvalidFlags);
        }
        Ok(Flags {
            read: self.read,
            write: self.write,
            execute: self.execute,
            cow: self.cow,
            private: self.private,
            shared: self.shared,
        })
    }

    /// Flip the read flag.
    pub fn toggle_read(self) -> (r: Self)
        ensures
            r@ == (FlagsView { read: !self@.read, ..self@ }),
    {
        FlagBuilder { read: !self.read, ..self }
    }

    /// Set the read flag.
    pub fn set_read(self, to: bool) -> (r: Self)
        ensures
            r@ == (FlagsView { read: to, ..self@ }),
    {
        FlagBuilder { read: to, ..self }
    }

    /// Flip the write flag.
    pub fn toggle_write(self) -> (r: Self)
        ensures
            r@ == (FlagsView { write: !self@.write, ..self@ }),
    {
        FlagBuilder { write: !self.write, ..self }
    }

    /// Set the write flag.
    pub fn set_write(self, to: bool) -> (r: Self)
        ensures
            r@ == (FlagsView { write: to, ..self@ }),
    {
        FlagBuilder { write: to, ..self }
    }

    /// Flip the execute flag.
    pub fn toggle_execute(self) -> (r: Self)
        ensures
            r@ == (FlagsView { execute: !self@.execute, ..self@ }),
    {
        FlagBuilder { execute: !self.execute, ..self }
    }

    /// Set the execute flag.
    pub fn set_execute(self, to: bool) -> (r: Self)
        ensures
            r@ == (FlagsView { execute: to, ..self@ }),
    {
        FlagBuilder { execute: to, ..self }
    }

    /// Flip the copy-on-write flag.
    pub fn toggle_cow(self) -> (r: Self)
        ensures
            r@ == (FlagsView { cow: !self@.cow, ..self@ }),
    {
        FlagBuilder { cow: !self.cow, ..self }
    }

    /// Set the copy-on-write flag.
    pub fn set_cow(self, to: bool) -> (r: Self)
        ensures
            r@ == (FlagsView { cow: to, ..self@ }),
    {
        FlagBuilder { cow: to, ..self }
    }

    /// Flip the private flag.
    pub fn toggle_private(self) -> (r: Self)
        ensures
            r@ == (FlagsView { private: !self@.private, ..self@ }),
    {
        FlagBuilder { private: !self.private, ..self }
    }

    /// Set the private flag.
    pub fn set_private(self, to: bool) -> (r: Self)
        ensures
            r@ == (FlagsView { private: to, ..self@ }),
    {
        FlagBuilder { private: to, ..self }
    }

    /// Flip the shared flag.
    pub fn toggle_shared(self) -> (r: Self)
        ensures
            r@ == (FlagsView { shared: !self@.shared, ..self@ }),
    {
        FlagBuilder { shared: !self.shared, ..self }
    }

    /// Set the shared flag.
    pub fn set_shared(self, to: bool) -> (r: Self)
        ensures
            r@ == (FlagsView { shared: to, ..self@ }),
    {
        FlagBuilder { shared: to, ..self }
    }

    /// Combine two builders by or-ing each flag: the union of their rights.
    ///
    /// The name reads well at call sites (`read.and(write)` grants read and
    /// write); the operation on each field is a boolean or.
    pub fn and(self, other: Self) -> (r: Self)
        ensures
            r@ == union_flags(self@, other@),
    {
        FlagBuilder {
            read: self.read || other.read,
            write: self.write || other.write,
            execute: self.execute || other.execute,
            cow: self.cow || other.cow,
            private: self.private || other.private,
            shared: self.shared || other.shared,
        }
    }

    /// Turn off every flag of `self` that is on in `other`.
    pub fn but_not(self, other: Self) -> (r: Self)
        ensures
            r@ == minus_flags(self@, other@),
    {
        FlagBuilder {
            read: self.read && !other.read,
            write: self.write && !other.write,
            execute: self.execute && !other.execute,
            cow: self.cow && !other.cow,
            private: self.private && !other.private,
            shared: self.shared && !other.shared,
        }
    }
}

/// A validated, immutable set of access-permission bits.
///
/// The fields are private: the only way to build one is
/// `FlagBuilder::validate`, so every `Flags` value is coherent.
#[derive(Clone, Copy, Debug, PartialEq, Eq, Structural)]
pub struct Flags {
    read: bool,
    write: bool,
    execute: bool,
    cow: bool,
    private: bool,
    shared: bool,
}

impl View for Flags {
    type V = FlagsView;

    closed spec fn view(&self) -> FlagsView {
        FlagsView {
            read: self.read,
            write: self.write,
            execute: self.execute,
            cow: self.cow,
            private: self.private,
            shared: self.shared,
        }
    }
}

impl Flags {
    /// Start a builder with every flag off.
    pub fn build() -> (r: FlagBuilder)
        ensures
            r@ == no_flags(),
    {
        FlagBuilder::new()
    }

    /// Open the flags back up for modification; the result must be
    /// validated again to get a `Flags`.
    pub fn into_builder(self) -> (r: FlagBuilder)
        ensures
            r@ == self@,
    {
        FlagBuilder {
            read: self.read,
            write: self.write,
            execute: self.execute,
            cow: self.cow,
            private: self.private,
            shared: self.shared,
        }
    }

    /// A builder with only the read flag on.
    pub fn read() -> (r: FlagBuilder)
        ensures
            r@ == (FlagsView { read: true, ..no_flags() }),
    {
        FlagBuilder::new().set_read(true)
    }

    /// A builder with only the write flag on.
    pub fn write() -> (r: FlagBuilder)
        ensures
            r@ == (FlagsView { write: true, ..no_flags() }),
    {
        FlagBuilder::new().set_write(true)
    }

    /// A builder with only the execute flag on.
    pub fn execute() -> (r: FlagBuilder)
        ensures
            r@ == (FlagsView { execute: true, ..no_flags() }),
    {
        FlagBuilder::new().set_execute(true)
    }

    /// A builder with only the copy-on-write flag on.
    pub fn cow() -> (r: FlagBuilder)
        ensures
            r@ == (FlagsView { cow: true, ..no_flags() }),
    {
        FlagBuilder::new().set_cow(true)
    }

    /// A builder with only the private flag on.
    pub fn private() -> (r: FlagBuilder)
        ensures
            r@ == (FlagsView { private: true, ..no_flags() }),
    {
        FlagBuilder::new().set_private(true)
    }

    /// A builder with only the shared flag on.
    pub fn shared() -> (r: FlagBuilder)
        ensures
            r@ == (FlagsView { shared: true, ..no_flags() }),
    {
        FlagBuilder::new().set_shared(true)
    }
}

/// Law: combining rights is symmetric; `a.and(b)` and `b.and(a)` build the
/// same flag set.
pub proof fn lemma_union_flags_commutes(a: FlagsView, b: FlagsView)
    ensures
        union_flags(a, b) == union_flags(b, a),
{
    assert(union_flags(a, b) =~= union_flags(b, a));
}

/// Law: removing a flag set from itself leaves no right on; `x.but_not(x)`
/// is the all-false flag set.
pub proof fn lemma_minus_flags_self(a: FlagsView)
    ensures
        minus_flags(a, a) == no_flags(),
{
    assert(minus_flags(a, a) =~= no_flags());
}

} // verus!
