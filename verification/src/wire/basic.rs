//! The types whose values the wire format knows how to lay out, and the
//! basic ones among them.

use std::rc::Rc;
use std::sync::Arc;
use vstd::prelude::*;
use crate::wire::signature::{Format, Signature, SignatureView};

verus! {

/// A type whose values have a signature.
pub trait Type {
    /// The signature of the values of the type, as a tree.
    spec fn spec_signature() -> SignatureView;

    /// The signature of the values of the type.
    fn signature() -> (r: Signature)
        ensures
            r@ == Self::spec_signature(),
    ;
}

/// A type whose values are basic: numbers, truth values and strings, whose
/// signature is a single character.
pub trait Basic: Type {
    /// The type signature, as a character.
    const SIGNATURE_CHAR: char;

    /// The type signature, as a string.
    const SIGNATURE_STR: &'static str;

    /// The character and the string both spell the signature of the type,
    /// which is a basic one.
    proof fn lemma_signature_spelled()
        ensures
            Self::spec_signature().is_basic(),
            Self::spec_signature().text() == seq![Self::SIGNATURE_CHAR as u8],
            Self::SIGNATURE_STR@ == seq![Self::SIGNATURE_CHAR],
    ;

    /// The required padding alignment for the given format.
    fn alignment(format: Format) -> (r: usize)
        ensures
            r == Self::spec_signature().alignment(format),
    {
        Self::signature().alignment(format)
    }
}

impl Type for u8 {
    open spec fn spec_signature() -> SignatureView {
        SignatureView::U8
    }

    fn signature() -> (r: Signature) {
        Signature::U8
    }
}

impl Basic for u8 {
    const SIGNATURE_CHAR: char = 'y';

    const SIGNATURE_STR: &'static str = "y";

    proof fn lemma_signature_spelled() {
        reveal_strlit("y");
        assert(Self::SIGNATURE_STR@ =~= seq![Self::SIGNATURE_CHAR]);
        assert(Self::spec_signature().text() =~= seq![Self::SIGNATURE_CHAR as u8]);
    }
}

/// There is no signed byte on the wire: it travels as a 16-bit number.
impl Type for i8 {
    open spec fn spec_signature() -> SignatureView {
        SignatureView::I16
    }

    fn signature() -> (r: Signature) {
        Signature::I16
    }
}

impl Basic for i8 {
    const SIGNATURE_CHAR: char = 'n';

    const SIGNATURE_STR: &'static str = "n";

    proof fn lemma_signature_spelled() {
        reveal_strlit("n");
        assert(Self::SIGNATURE_STR@ =~= seq![Self::SIGNATURE_CHAR]);
        assert(Self::spec_signature().text() =~= seq![Self::SIGNATURE_CHAR as u8]);
    }
}

impl Type for bool {
    open spec fn spec_signature() -> SignatureView {
        SignatureView::Bool
    }

    fn signature() -> (r: Signature) {
        Signature::Bool
    }
}

impl Basic for bool {
    const SIGNATURE_CHAR: char = 'b';

    const SIGNATURE_STR: &'static str = "b";

    proof fn lemma_signature_spelled() {
        reveal_strlit("b");
        assert(Self::SIGNATURE_STR@ =~= seq![Self::SIGNATURE_CHAR]);
        assert(Self::spec_signature().text() =~= seq![Self::SIGNATURE_CHAR as u8]);
    }
}

impl Type for i16 {
    open spec fn spec_signature() -> SignatureView {
        SignatureView::I16
    }

    fn signature() -> (r: Signature) {
        Signature::I16
    }
}

impl Basic for i16 {
    const SIGNATURE_CHAR: char = 'n';

    const SIGNATURE_STR: &'static str = "n";

    proof fn lemma_signature_spelled() {
        reveal_strlit("n");
        assert(Self::SIGNATURE_STR@ =~= seq![Self::SIGNATURE_CHAR]);
        assert(Self::spec_signature().text() =~= seq![Self::SIGNATURE_CHAR as u8]);
    }
}

impl Type for u16 {
    open spec fn spec_signature() -> SignatureView {
        SignatureView::U16
    }

    fn signature() -> (r: Signature) {
        Signature::U16
    }
}

impl Basic for u16 {
    const SIGNATURE_CHAR: char = 'q';

    const SIGNATURE_STR: &'static str = "q";

    proof fn lemma_signature_spelled() {
        reveal_strlit("q");
        assert(Self::SIGNATURE_STR@ =~= seq![Self::SIGNATURE_CHAR]);
        assert(Self::spec_signature().text() =~= seq![Self::SIGNATURE_CHAR as u8]);
    }
}

impl Type for i32 {
    open spec fn spec_signature() -> SignatureView {
        SignatureView::I32
    }

    fn signature() -> (r: Signature) {
        Signature::I32
    }
}

impl Basic for i32 {
    const SIGNATURE_CHAR: char = 'i';

    const SIGNATURE_STR: &'static str = "i";

    proof fn lemma_signature_spelled() {
        reveal_strlit("i");
        assert(Self::SIGNATURE_STR@ =~= seq![Self::SIGNATURE_CHAR]);
        assert(Self::spec_signature().text() =~= seq![Self::SIGNATURE_CHAR as u8]);
    }
}

impl Type for u32 {
    open spec fn spec_signature() -> SignatureView {
        SignatureView::U32
    }

    fn signature() -> (r: Signature) {
        Signature::U32
    }
}

impl Basic for u32 {
    const SIGNATURE_CHAR: char = 'u';

    const SIGNATURE_STR: &'static str = "u";

    proof fn lemma_signature_spelled() {
        reveal_strlit("u");
        assert(Self::SIGNATURE_STR@ =~= seq![Self::SIGNATURE_CHAR]);
        assert(Self::spec_signature().text() =~= seq![Self::SIGNATURE_CHAR as u8]);
    }
}

impl Type for i64 {
    open spec fn spec_signature() -> SignatureView {
        SignatureView::I64
    }

    fn signature() -> (r: Signature) {
        Signature::I64
    }
}

impl Basic for i64 {
    const SIGNATURE_CHAR: char = 'x';

    const SIGNATURE_STR: &'static str = "x";

    proof fn lemma_signature_spelled() {
        reveal_strlit("x");
        assert(Self::SIGNATURE_STR@ =~= seq![Self::SIGNATURE_CHAR]);
        assert(Self::spec_signature().text() =~= seq![Self::SIGNATURE_CHAR as u8]);
    }
}

impl Type for u64 {
    open spec fn spec_signature() -> SignatureView {
        SignatureView::U64
    }

    fn signature() -> (r: Signature) {
        Signature::U64
    }
}

impl Basic for u64 {
    const SIGNATURE_CHAR: char = 't';

    const SIGNATURE_STR: &'static str = "t";

    proof fn lemma_signature_spelled() {
        reveal_strlit("t");
        assert(Self::SIGNATURE_STR@ =~= seq![Self::SIGNATURE_CHAR]);
        assert(Self::spec_signature().text() =~= seq![Self::SIGNATURE_CHAR as u8]);
    }
}

/// A size travels as an unsigned 64-bit number.
impl Type for usize {
    open spec fn spec_signature() -> SignatureView {
        SignatureView::U64
    }

    fn signature() -> (r: Signature) {
        Signature::U64
    }
}

impl Basic for usize {
    const SIGNATURE_CHAR: char = 't';

    const SIGNATURE_STR: &'static str = "t";

    proof fn lemma_signature_spelled() {
        reveal_strlit("t");
        assert(Self::SIGNATURE_STR@ =~= seq![Self::SIGNATURE_CHAR]);
        assert(Self::spec_signature().text() =~= seq![Self::SIGNATURE_CHAR as u8]);
    }
}

/// A signed size travels as a signed 64-bit number.
impl Type for isize {
    open spec fn spec_signature() -> SignatureView {
        SignatureView::I64
    }

    fn signature() -> (r: Signature) {
        Signature::I64
    }
}

impl Basic for isize {
    const SIGNATURE_CHAR: char = 'x';

    const SIGNATURE_STR: &'static str = "x";

    proof fn lemma_signature_spelled() {
        reveal_strlit("x");
        assert(Self::SIGNATURE_STR@ =~= seq![Self::SIGNATURE_CHAR]);
        assert(Self::spec_signature().text() =~= seq![Self::SIGNATURE_CHAR as u8]);
    }
}

impl Type for str {
    open spec fn spec_signature() -> SignatureView {
        SignatureView::Str
    }

    fn signature() -> (r: Signature) {
        Signature::Str
    }
}

impl Basic for str {
    const SIGNATURE_CHAR: char = 's';

    const SIGNATURE_STR: &'static str = "s";

    proof fn lemma_signature_spelled() {
        reveal_strlit("s");
        assert(Self::SIGNATURE_STR@ =~= seq![Self::SIGNATURE_CHAR]);
        assert(Self::spec_signature().text() =~= seq![Self::SIGNATURE_CHAR as u8]);
    }
}

impl Type for String {
    open spec fn spec_signature() -> SignatureView {
        SignatureView::Str
    }

    fn signature() -> (r: Signature) {
        Signature::Str
    }
}

impl Basic for String {
    const SIGNATURE_CHAR: char = 's';

    const SIGNATURE_STR: &'static str = "s";

    proof fn lemma_signature_spelled() {
        reveal_strlit("s");
        assert(Self::SIGNATURE_STR@ =~= seq![Self::SIGNATURE_CHAR]);
        assert(Self::spec_signature().text() =~= seq![Self::SIGNATURE_CHAR as u8]);
    }
}

/// A character travels as a string.
impl Type for char {
    open spec fn spec_signature() -> SignatureView {
        SignatureView::Str
    }

    fn signature() -> (r: Signature) {
        Signature::Str
    }
}

impl Basic for char {
    const SIGNATURE_CHAR: char = 's';

    const SIGNATURE_STR: &'static str = "s";

    proof fn lemma_signature_spelled() {
        reveal_strlit("s");
        assert(Self::SIGNATURE_STR@ =~= seq![Self::SIGNATURE_CHAR]);
        assert(Self::spec_signature().text() =~= seq![Self::SIGNATURE_CHAR as u8]);
    }
}

/// A reference has the signature of what it refers to.
impl<T: Type + ?Sized> Type for &T {
    open spec fn spec_signature() -> SignatureView {
        T::spec_signature()
    }

    fn signature() -> (r: Signature) {
        T::signature()
    }
}

impl<T: Basic + ?Sized> Basic for &T {
    const SIGNATURE_CHAR: char = T::SIGNATURE_CHAR;

    const SIGNATURE_STR: &'static str = T::SIGNATURE_STR;

    proof fn lemma_signature_spelled() {
        T::lemma_signature_spelled();
    }
}

/// A box has the signature of what is in it.
impl<T: Type + ?Sized> Type for Box<T> {
    open spec fn spec_signature() -> SignatureView {
        T::spec_signature()
    }

    fn signature() -> (r: Signature) {
        T::signature()
    }
}

impl<T: Basic + ?Sized> Basic for Box<T> {
    const SIGNATURE_CHAR: char = T::SIGNATURE_CHAR;

    const SIGNATURE_STR: &'static str = T::SIGNATURE_STR;

    proof fn lemma_signature_spelled() {
        T::lemma_signature_spelled();
    }
}

/// A shared value has the signature of the value.
impl<T: Type + ?Sized> Type for Rc<T> {
    open spec fn spec_signature() -> SignatureView {
        T::spec_signature()
    }

    fn signature() -> (r: Signature) {
        T::signature()
    }
}

impl<T: Basic + ?Sized> Basic for Rc<T> {
    const SIGNATURE_CHAR: char = T::SIGNATURE_CHAR;

    const SIGNATURE_STR: &'static str = T::SIGNATURE_STR;

    proof fn lemma_signature_spelled() {
        T::lemma_signature_spelled();
    }
}

/// A value shared between threads has the signature of the value.
impl<T: Type + ?Sized> Type for Arc<T> {
    open spec fn spec_signature() -> SignatureView {
        T::spec_signature()
    }

    fn signature() -> (r: Signature) {
        T::signature()
    }
}

impl<T: Basic + ?Sized> Basic for Arc<T> {
    const SIGNATURE_CHAR: char = T::SIGNATURE_CHAR;

    const SIGNATURE_STR: &'static str = T::SIGNATURE_STR;

    proof fn lemma_signature_spelled() {
        T::lemma_signature_spelled();
    }
}

/// The string of fixed capacity of `heapless`, which this library only
/// names.
#[verifier::external_type_specification]
#[verifier::external_body]
pub struct ExHeaplessString<const CAP: usize>(heapless::String<CAP>);

/// A string of fixed capacity travels as a string.
impl<const CAP: usize> Type for heapless::String<CAP> {
    open spec fn spec_signature() -> SignatureView {
        SignatureView::Str
    }

    fn signature() -> (r: Signature) {
        Signature::Str
    }
}

impl<const CAP: usize> Basic for heapless::String<CAP> {
    const SIGNATURE_CHAR: char = 's';

    const SIGNATURE_STR: &'static str = "s";

    proof fn lemma_signature_spelled() {
        reveal_strlit("s");
        assert(Self::SIGNATURE_STR@ =~= seq![Self::SIGNATURE_CHAR]);
        assert(Self::spec_signature().text() =~= seq![Self::SIGNATURE_CHAR as u8]);
    }
}

} // verus!
