//! The sink that everything is written to, and `String` as the sink that
//! cannot fail.
use vstd::prelude::*;
use vstd::string::*;

verus! {

/// `std::fmt::Error`, the error type of `String` as a sink. Nothing is said
/// of it: it is only handed on, and a `String` never returns it.
#[verifier::external_type_specification]
#[verifier::external_body]
pub struct ExFmtError(std::fmt::Error);

/// `String::push`. Believed, as its documentation says: the character is
/// appended to the end of the string.
pub assume_specification[ String::push ](s: &mut String, c: char)
    ensures
        final(s)@ == old(s)@.push(c),
;

/// An append-only destination for characters.
///
/// A write that returns `Ok` has appended exactly what it was given; of a
/// write that returns an error nothing is known. What the sink has accepted is
/// [`written`](WriterExt::written), which a verified implementation
/// defines; left out, it stands for a text of which nothing is known, and the
/// sink counts as one that can fail.
pub trait WriterExt {
    /// What a refused write returns.
    type Error: std::fmt::Debug;

    /// Everything the sink has accepted so far.
    open spec fn written(&self) -> Seq<char> {
        arbitrary()
    }

    /// Whether writes to this kind of sink always succeed.
    open spec fn infallible() -> bool {
        false
    }

    /// Appends `input` as its `Display` gives it.
    fn write<E: std::fmt::Display>(&mut self, input: E) -> (res: Result<(), Self::Error>)
        ensures
            res is Ok ==> exists|s: String| #[trigger]
                to_string_from_display_ensures::<E>(&input, s) && final(self).written() == old(
                    self,
                ).written() + s@,
            Self::infallible() ==> res is Ok,
    ;

    /// Appends `input`.
    fn write_str(&mut self, input: &str) -> (res: Result<(), Self::Error>)
        ensures
            res is Ok ==> final(self).written() == old(self).written() + input@,
            Self::infallible() ==> res is Ok,
    ;

    /// Appends the character `input`.
    fn write_char(&mut self, input: char) -> (res: Result<(), Self::Error>)
        ensures
            res is Ok ==> final(self).written() == old(self).written().push(input),
            Self::infallible() ==> res is Ok,
    ;
}

/// A `String` holds what was written to it, and accepts every write.
impl WriterExt for String {
    type Error = std::fmt::Error;

    open spec fn written(&self) -> Seq<char> {
        self@
    }

    open spec fn infallible() -> bool {
        true
    }

    fn write<E: std::fmt::Display>(&mut self, input: E) -> (res: Result<(), Self::Error>) {
        let text = input.to_string();
        self.append(text.as_str());
        Ok(())
    }

    fn write_str(&mut self, input: &str) -> (res: Result<(), Self::Error>) {
        self.append(input);
        Ok(())
    }

    fn write_char(&mut self, input: char) -> (res: Result<(), Self::Error>) {
        self.push(input);
        Ok(())
    }
}

} // verus!
