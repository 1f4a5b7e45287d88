//! The `LogixType` contract and the descriptors that document each type.

pub mod impl_trait;

use crate::error::ParseError;
use crate::parser::{dup_warning_witnessed, LogixParser};
use crate::span::SourceSpan;
use vstd::prelude::*;

verus! {

/// A parsed value together with the source region it came from.
#[derive(Debug, PartialEq, Eq)]
pub struct Value<T> {
    pub value: T,
    pub span: SourceSpan,
}

impl<T> Value<T> {
    /// Apply `f` to the carried value, keeping the span.
    pub fn map<R, F: FnOnce(T) -> R>(self, f: F) -> (r: Value<R>)
        requires
            call_requires(f, (self.value,)),
        ensures
            r.span == self.span,
            call_ensures(f, (self.value,), r.value),
    {
        let Value { value, span } = self;
        Value { span, value: f(value) }
    }

    /// Extend the carried span to also cover `span`.
    pub fn join_with_span(self, span: SourceSpan) -> (r: Value<T>)
        requires
            self.span.file.same_file(&span.file),
        ensures
            r.value == self.value,
            r.span.file.same_file(&self.span.file),
            r.span.spec_pos() == crate::span::spec_min(self.span.spec_pos(), span.spec_pos()),
            r.span.spec_line() == crate::span::spec_min(self.span.spec_line(), span.spec_line()),
            r.span.spec_last_line() == crate::span::spec_max(
                self.span.spec_last_line(),
                span.spec_last_line(),
            ),
            self.span.spec_line() == span.spec_line() ==> r.span.spec_col()
                == crate::span::spec_min(self.span.spec_col(), span.spec_col()),
            self.span.wf() && span.wf() && self.span.aligned_with(&span) && (
            self.span.is_single_line() && span.is_single_line() || crate::span::spec_min(
                self.span.spec_line(),
                span.spec_line(),
            ) != crate::span::spec_max(self.span.spec_last_line(), span.spec_last_line()))
                ==> r.span.wf(),
    {
        let Value { value, span: own } = self;
        let joined = own.join(&span);
        Value { value, span: joined }
    }
}

/// Describes what a type looks like in a config file.
pub enum LogixValueDescriptor {
    /// A native type that can be given by a literal.
    Native,
    /// A tuple of the given member types.
    Tuple { members: Vec<LogixTypeDescriptor> },
    /// A struct with the given named members.
    Struct { members: Vec<(&'static str, LogixTypeDescriptor)> },
    /// An enum with the given variants.
    Enum { variants: Vec<LogixTypeDescriptor> },
}

/// Metadata about a type: its name, its documentation and its shape.
/// Used for documentation and auto-completion; parsing never consults it.
pub struct LogixTypeDescriptor {
    /// Name of the type.
    pub name: &'static str,
    /// Documentation for the type.
    pub doc: &'static str,
    /// The shape of the type itself.
    pub value: LogixValueDescriptor,
}

/// The contract every type storable in a config file implements: a
/// descriptor, a default for when the member is absent, and a parser that
/// reads the type's own token sequence off the driver.
pub trait LogixType: Sized {
    /// A description of the type, intended for documentation and
    /// auto-completion.
    fn descriptor() -> LogixTypeDescriptor;

    /// The value this type takes when a member of it is absent, if it has
    /// one.
    fn default_value() -> Option<Self>;

    /// Parse one value of this type from the driver.  Parsing never
    /// touches another file's state: the driver keeps its file, stays
    /// well-formed, only moves forward, and every produced span points
    /// into the driver's file.
    fn logix_parse(p: &mut LogixParser) -> (r: Result<Value<Self>, ParseError>)
        requires
            old(p).wf(),
        ensures
            final(p).wf(),
            final(p).file.same_file(&old(p).file),
            final(p).state.cur_pos >= old(p).state.cur_pos,
            (r matches Ok(v) ==> v.span.file.same_file(&old(p).file)),
            (r matches Ok(v) ==> final(p).state.cur_pos > old(p).state.cur_pos),
            (r matches Err(e) ==> !(e matches ParseError::FsError(_))),
            (r matches Err(e) ==> dup_warning_witnessed(old(p).file.spec_data(), e)),
    ;
}

} // verus!
