use vstd::prelude::*;
use vstd::string::StringSliceAdditionalSpecFns;

verus! {

/// The text handed to a lexer: a borrowed string that outlives the lexer and is
/// never changed. Its view is the sequence of its bytes.
#[derive(Debug, PartialEq, Eq, Hash)]
pub struct SourceCode<'source> {
    code: &'source str,
}

impl<'source> Clone for SourceCode<'source> {
    fn clone(&self) -> (copy: Self)
        ensures
            copy@ == self@,
            copy.text() == self.text(),
    {
        SourceCode { code: self.code }
    }
}

impl<'source> View for SourceCode<'source> {
    type V = Seq<u8>;

    closed spec fn view(&self) -> Seq<u8> {
        self.code.spec_bytes()
    }
}

impl<'source> SourceCode<'source> {
    /// The characters of the text.
    pub closed spec fn text(&self) -> Seq<char> {
        self.code@
    }

    /// The bytes are the UTF-8 encoding of the characters.
    pub proof fn lemma_view_encodes_text(&self)
        ensures
            self@ == vstd::utf8::encode_utf8(self.text()),
    {
    }

    #[inline]
    pub fn new(code: &'source str) -> (source: Self)
        ensures
            source@ == code.spec_bytes(),
            source.text() == code@,
    {
        SourceCode { code }
    }

    #[inline(always)]
    pub fn as_str(&self) -> (code: &'source str)
        ensures
            code@ == self.text(),
            code.spec_bytes() == self@,
    {
        self.code
    }

    #[inline(always)]
    pub fn len(&self) -> (n: usize)
        ensures
            n == self@.len(),
    {
        self.code.as_bytes().len()
    }

    #[inline(always)]
    pub fn is_empty(&self) -> (empty: bool)
        ensures
            empty == (self@.len() == 0),
    {
        self.len() == 0
    }

    #[inline(always)]
    pub fn as_bytes(&self) -> (bytes: &'source [u8])
        ensures
            bytes@ == self@,
    {
        self.code.as_bytes()
    }
}

} // verus!
