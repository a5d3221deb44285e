//! The wording of the failures, for a reader.

use vstd::prelude::*;
use vstd::string::StringExecFns;
use crate::add::AddError;
use crate::function::KernelError;
use crate::kernel_spec::ParseError;

verus! {

impl ParseError {
    /// The cause of the failure in words.
    pub open spec fn text(&self) -> Seq<char> {
        match self {
            ParseError::TooFewParts => "a kernel needs a size and a kind, joined by a hyphen"@,
            ParseError::InvalidSize => "the kernel size is not a number"@,
            ParseError::SizeTooLarge => "the kernel size is above 65535"@,
            ParseError::EvenSize => "the kernel size must be an odd number"@,
            ParseError::MissingArgument => "the kernel lacks an argument"@,
            ParseError::InvalidNumber => "an argument is not a decimal number"@,
            ParseError::NonPositiveSigma => "sigma must be a positive value"@,
            ParseError::BadLength => "the length must be positive and at most the kernel size"@,
            ParseError::UnknownGaussKind => "a Gaussian kernel is either blur or sharpen"@,
            ParseError::UnknownDirection => "the direction is none of n, s, e, w, nw, ne, sw, se"@,
            ParseError::UnknownKernel => "no kernel of that name is known"@,
            ParseError::SizeMismatch => "the kernel of that name has another size"@,
        }
    }

    /// The cause of the failure in words.
    pub fn message(&self) -> (s: String)
        ensures
            s@ == self.text(),
    {
        match self {
            ParseError::TooFewParts => String::from_str(
                "a kernel needs a size and a kind, joined by a hyphen",
            ),
            ParseError::InvalidSize => String::from_str("the kernel size is not a number"),
            ParseError::SizeTooLarge => String::from_str("the kernel size is above 65535"),
            ParseError::EvenSize => String::from_str("the kernel size must be an odd number"),
            ParseError::MissingArgument => String::from_str("the kernel lacks an argument"),
            ParseError::InvalidNumber => String::from_str("an argument is not a decimal number"),
            ParseError::NonPositiveSigma => String::from_str("sigma must be a positive value"),
            ParseError::BadLength => String::from_str(
                "the length must be positive and at most the kernel size",
            ),
            ParseError::UnknownGaussKind => String::from_str(
                "a Gaussian kernel is either blur or sharpen",
            ),
            ParseError::UnknownDirection => String::from_str(
                "the direction is none of n, s, e, w, nw, ne, sw, se",
            ),
            ParseError::UnknownKernel => String::from_str("no kernel of that name is known"),
            ParseError::SizeMismatch => String::from_str("the kernel of that name has another size"),
        }
    }
}

impl KernelError {
    /// The cause of the failure in words.
    pub open spec fn text(&self) -> Seq<char> {
        match self {
            KernelError::BadSize => "the kernel size must be an odd number of at most 65535"@,
            KernelError::BadLength => "the length must be positive and at most the kernel size"@,
            KernelError::EndpointOutOfReach => "the line ends further away than it is long"@,
            KernelError::SampleCount => "the profile does not match the kernel size"@,
            KernelError::NoWeight => "the Gaussian vanishes everywhere"@,
            KernelError::Overflow => "a weight is out of range"@,
            KernelError::UnknownEntry => "no kernel of that name is known"@,
            KernelError::SizeMismatch => "the kernel of that name has another size"@,
            KernelError::BadNumber => "sigma must be a positive value"@,
            KernelError::BadWeights => "the weights have no positive denominator"@,
            KernelError::WrongSamples => "the kernel was given values of the wrong kind"@,
        }
    }

    /// The cause of the failure in words.
    pub fn message(&self) -> (s: String)
        ensures
            s@ == self.text(),
    {
        match self {
            KernelError::BadSize => String::from_str(
                "the kernel size must be an odd number of at most 65535",
            ),
            KernelError::BadLength => String::from_str(
                "the length must be positive and at most the kernel size",
            ),
            KernelError::EndpointOutOfReach => String::from_str(
                "the line ends further away than it is long",
            ),
            KernelError::SampleCount => String::from_str(
                "the profile does not match the kernel size",
            ),
            KernelError::NoWeight => String::from_str("the Gaussian vanishes everywhere"),
            KernelError::Overflow => String::from_str("a weight is out of range"),
            KernelError::UnknownEntry => String::from_str("no kernel of that name is known"),
            KernelError::SizeMismatch => String::from_str(
                "the kernel of that name has another size",
            ),
            KernelError::BadNumber => String::from_str("sigma must be a positive value"),
            KernelError::BadWeights => String::from_str("the weights have no positive denominator"),
            KernelError::WrongSamples => String::from_str(
                "the kernel was given values of the wrong kind",
            ),
        }
    }
}

impl AddError {
    /// The cause of the failure in words.
    pub open spec fn text(&self) -> Seq<char> {
        "the two images differ in size"@
    }

    /// The cause of the failure in words.
    pub fn message(&self) -> (s: String)
        ensures
            s@ == self.text(),
    {
        String::from_str("the two images differ in size")
    }
}

} // verus!
