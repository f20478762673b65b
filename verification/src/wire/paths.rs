//! File system paths, which travel as strings.

use vstd::prelude::*;
use crate::wire::basic::Type;
use crate::wire::signature::{Signature, SignatureView};

verus! {

/// The owned path of `std`, which this library only names.
#[verifier::external_type_specification]
#[verifier::external_body]
pub struct ExPathBuf(std::path::PathBuf);

/// The owned UTF-8 path of `camino`, which this library only names.
#[verifier::external_type_specification]
#[verifier::external_body]
pub struct ExUtf8PathBuf(camino::Utf8PathBuf);

/// The borrowed path of `std`, which this library only names.
#[verifier::external_type_specification]
#[verifier::external_body]
pub struct ExPath(std::path::Path);

/// The borrowed UTF-8 path of `camino`, which this library only names.
#[verifier::external_type_specification]
#[verifier::external_body]
pub struct ExUtf8Path(camino::Utf8Path);

impl Type for std::path::Path {
    open spec fn spec_signature() -> SignatureView {
        SignatureView::Str
    }

    fn signature() -> (r: Signature) {
        Signature::Str
    }
}

impl Type for camino::Utf8Path {
    open spec fn spec_signature() -> SignatureView {
        SignatureView::Str
    }

    fn signature() -> (r: Signature) {
        Signature::Str
    }
}

impl Type for std::path::PathBuf {
    open spec fn spec_signature() -> SignatureView {
        SignatureView::Str
    }

    fn signature() -> (r: Signature) {
        Signature::Str
    }
}

impl Type for camino::Utf8PathBuf {
    open spec fn spec_signature() -> SignatureView {
        SignatureView::Str
    }

    fn signature() -> (r: Signature) {
        Signature::Str
    }
}

} // verus!
