use crate::signature::{Signature, ValueType};
use vstd::prelude::*;
use vstd::utf8::encode_utf8;
use sha2::Digest;

verus! {

/// What base58 decoding yields for a string: the decoded bytes, or `None` where the string is
/// not base58.
pub uninterp spec fn base58_decoded(s: Seq<char>) -> Option<Seq<u8>>;

/// The base58 representation of a sequence of bytes.
pub uninterp spec fn base58_encoded(bytes: Seq<u8>) -> Seq<char>;

/// The SHA-256 digest of a sequence of bytes.
pub uninterp spec fn sha256_digest(bytes: Seq<u8>) -> Seq<u8>;

/// Relies on `bs58::decode(..).into_vec()`: decoding depends on the characters alone, and fails
/// on a character outside the base58 alphabet.
#[verifier::external_body]
fn decode_base58(s: &str) -> (r: Option<Vec<u8>>)
    ensures
        r matches Some(v) ==> base58_decoded(s@) == Some(v@),
        r is None ==> base58_decoded(s@) is None,
{
    bs58::decode(s).into_vec().ok()
}

/// Relies on `bs58::encode(..).into_string()`: the encoding depends on the bytes alone.
#[verifier::external_body]
fn encode_base58(bytes: &[u8]) -> (r: String)
    ensures
        r@ == base58_encoded(bytes@),
{
    bs58::encode(bytes).into_string()
}

/// Relies on `sha2::Sha256::digest`: the 32-byte digest of the input.
#[verifier::external_body]
fn sha256(bytes: &[u8]) -> (r: [u8; 32])
    ensures
        r@ == sha256_digest(bytes@),
{
    sha2::Sha256::digest(bytes).into()
}

/// Hash of an interface definition.
#[derive(Clone, Debug, PartialEq, Eq, Hash)]
pub struct InterfaceHash([u8; 32]);

impl View for InterfaceHash {
    type V = Seq<u8>;

    closed spec fn view(&self) -> Seq<u8> {
        self.0@
    }
}

impl InterfaceHash {
    /// Builds a hash from its 32 bytes.
    pub fn from_bytes(bytes: [u8; 32]) -> (r: InterfaceHash)
        ensures
            r@ == bytes@,
    {
        InterfaceHash(bytes)
    }

    /// Builds a hash from a slice, which must hold exactly 32 bytes.
    pub fn from_slice(bytes: &[u8]) -> (r: Option<InterfaceHash>)
        ensures
            r is Some <==> bytes@.len() == 32,
            r matches Some(h) ==> h@ == bytes@,
    {
        if bytes.len() != 32 {
            return None;
        }
        let mut out = [0u8; 32];
        let mut i: usize = 0;
        while i < 32
            invariant
                bytes@.len() == 32,
                0 <= i <= 32,
                out@.len() == 32,
                forall|j: int| 0 <= j < i ==> out@[j] == bytes@[j],
            decreases 32 - i,
        {
            out[i] = bytes[i];
            i = i + 1;
        }
        assert(out@ =~= bytes@);
        Some(InterfaceHash(out))
    }

    /// Returns the 32 bytes of the hash.
    pub fn as_bytes(&self) -> (r: &[u8; 32])
        ensures
            r@ == self@,
    {
        &self.0
    }

    /// Returns true if both hashes hold the same bytes.
    pub fn same_as(&self, other: &InterfaceHash) -> (r: bool)
        ensures
            r == (self@ == other@),
    {
        let mut i: usize = 0;
        while i < 32
            invariant
                0 <= i <= 32,
                self.0@.len() == 32,
                other.0@.len() == 32,
                forall|j: int| 0 <= j < i ==> self.0@[j] == other.0@[j],
            decreases 32 - i,
        {
            if self.0[i] != other.0[i] {
                return false;
            }
            i = i + 1;
        }
        assert(self.0@ =~= other.0@);
        true
    }

    /// The base58 representation of the hash.
    pub fn to_base58(&self) -> (r: String)
        ensures
            r@ == base58_encoded(self@),
    {
        encode_base58(self.0.as_slice())
    }

    /// Parses the base58 representation of a hash.
    ///
    /// A decoding shorter than 32 bytes is aligned to the right of the hash, which starts with
    /// zeroes. Returns `None` if the string is not base58 or decodes to more than 32 bytes.
    pub fn from_base58(s: &str) -> (r: Option<InterfaceHash>)
        ensures
            r matches Some(h) ==> hash_of_base58(s@) == Some(h@),
            r is None ==> hash_of_base58(s@) is None,
    {
        match decode_base58(s) {
            None => None,
            Some(bytes) => {
                if bytes.len() > 32 {
                    None
                } else {
                    Some(InterfaceHash(right_aligned(&bytes)))
                }
            },
        }
    }
}

/// A sequence of `n` zero bytes.
pub open spec fn zeroes(n: nat) -> Seq<u8> {
    Seq::new(n, |i: int| 0u8)
}

/// `bytes` aligned to the right of a 32-byte buffer that starts with zeroes.
pub open spec fn right_aligned_spec(bytes: Seq<u8>) -> Seq<u8> {
    zeroes((32 - bytes.len()) as nat) + bytes
}

/// The hash that a base58 string stands for, if any.
pub open spec fn hash_of_base58(s: Seq<char>) -> Option<Seq<u8>> {
    match base58_decoded(s) {
        Some(b) => if b.len() <= 32 {
            Some(right_aligned_spec(b))
        } else {
            None
        },
        None => None,
    }
}

/// Copies `bytes` to the right end of a 32-byte buffer whose other bytes are zero.
fn right_aligned(bytes: &Vec<u8>) -> (r: [u8; 32])
    requires
        bytes.len() <= 32,
    ensures
        r@ == right_aligned_spec(bytes@),
{
    let mut out = [0u8; 32];
    let start: usize = 32 - bytes.len();
    let mut i: usize = 0;
    while i < bytes.len()
        invariant
            bytes.len() <= 32,
            start == 32 - bytes.len(),
            0 <= i <= bytes.len(),
            out@.len() == 32,
            forall|j: int| 0 <= j < start ==> out@[j] == 0u8,
            forall|j: int| 0 <= j < i ==> out@[start + j] == bytes@[j],
        decreases bytes.len() - i,
    {
        out[start + i] = bytes[i];
        i = i + 1;
    }
    assert(out@ =~= right_aligned_spec(bytes@));
    out
}

/// Identifier of an interface: either a hash or a plain name.
///
/// The name form lets programs import functions under plain namespaces rather than by hash.
#[derive(Clone, Debug, PartialEq, Eq, Hash)]
pub enum InterfaceId {
    Hash(InterfaceHash),
    Bytes(String),
}

/// Mathematical form of an interface identifier.
pub enum InterfaceKey {
    Hash(Seq<u8>),
    Name(Seq<char>),
}

impl View for InterfaceId {
    type V = InterfaceKey;

    closed spec fn view(&self) -> InterfaceKey {
        match self {
            InterfaceId::Hash(h) => InterfaceKey::Hash(h@),
            InterfaceId::Bytes(s) => InterfaceKey::Name(s@),
        }
    }
}

/// The interface that a module name designates: the hash it is the base58 form of, or else the
/// name itself.
pub open spec fn interface_of_module_name(name: Seq<char>) -> InterfaceKey {
    match hash_of_base58(name) {
        Some(h) => InterfaceKey::Hash(h),
        None => InterfaceKey::Name(name),
    }
}

impl InterfaceId {
    /// Identifier of the interface with this hash.
    pub fn from_hash(hash: InterfaceHash) -> (r: InterfaceId)
        ensures
            r@ == InterfaceKey::Hash(hash@),
    {
        InterfaceId::Hash(hash)
    }

    /// Identifier of the interface with this name.
    pub fn from_name(name: &str) -> (r: InterfaceId)
        ensures
            r@ == InterfaceKey::Name(name@),
    {
        InterfaceId::Bytes(name.to_owned())
    }

    /// Interprets the module name of an import: the base58 form of a hash of at most 32 bytes
    /// designates that hash, anything else is a plain name.
    pub fn from_module_name(name: &str) -> (r: InterfaceId)
        ensures
            r@ == interface_of_module_name(name@),
    {
        match InterfaceHash::from_base58(name) {
            Some(h) => InterfaceId::Hash(h),
            None => InterfaceId::Bytes(name.to_owned()),
        }
    }

    /// Returns true if both identifiers designate the same interface.
    pub fn same_as(&self, other: &InterfaceId) -> (r: bool)
        ensures
            r == (self@ == other@),
    {
        match (self, other) {
            (InterfaceId::Hash(a), InterfaceId::Hash(b)) => a.same_as(b),
            (InterfaceId::Bytes(a), InterfaceId::Bytes(b)) => a.eq(b),
            _ => false,
        }
    }
}

/// A function of an interface.
struct Function {
    name: String,
    signature: Signature,
}

/// Definition of an interface: a name, its functions, and the hash that identifies it.
pub struct Interface {
    name: String,
    functions: Vec<Function>,
    hash: InterfaceHash,
}

/// Prototype of an interface being built.
pub struct InterfaceBuilder {
    name: String,
    functions: Vec<Function>,
}

impl InterfaceBuilder {
    pub closed spec fn name_spec(&self) -> Seq<char> {
        self.name@
    }

    pub closed spec fn functions_spec(&self) -> Seq<(Seq<char>, (Seq<ValueType>, Option<ValueType>))> {
        self.functions@.map_values(|f: Function| (f.name@, f.signature@))
    }

    /// Changes the name of the prototype interface.
    pub fn with_name(self, name: String) -> (r: InterfaceBuilder)
        ensures
            r.name_spec() == name@,
            r.functions_spec() == self.functions_spec(),
    {
        InterfaceBuilder { name, functions: self.functions }
    }

    /// Adds a function to the prototype interface.
    pub fn with_function(self, name: String, signature: Signature) -> (r: InterfaceBuilder)
        ensures
            r.name_spec() == self.name_spec(),
            r.functions_spec() == self.functions_spec().push((name@, signature@)),
    {
        let mut functions = self.functions;
        let ghost before = functions@;
        let ghost entry = (name@, signature@);
        functions.push(Function { name, signature });
        assert(functions@.map_values(|f: Function| (f.name@, f.signature@)) =~= before.map_values(
            |f: Function| (f.name@, f.signature@),
        ).push(entry));
        InterfaceBuilder { name: self.name, functions }
    }

    /// Turns the builder into an interface, whose hash is the SHA-256 digest of its name.
    pub fn build(self) -> (r: Interface)
        ensures
            r.name_spec() == self.name_spec(),
            r.functions_spec() == self.functions_spec(),
            r.hash_spec() == sha256_digest(encode_utf8(self.name_spec())),
    {
        let digest = sha256(self.name.as_str().as_bytes());
        Interface { name: self.name, functions: self.functions, hash: InterfaceHash(digest) }
    }
}

impl Interface {
    pub closed spec fn name_spec(&self) -> Seq<char> {
        self.name@
    }

    pub closed spec fn functions_spec(&self) -> Seq<(Seq<char>, (Seq<ValueType>, Option<ValueType>))> {
        self.functions@.map_values(|f: Function| (f.name@, f.signature@))
    }

    pub closed spec fn hash_spec(&self) -> Seq<u8> {
        self.hash@
    }

    /// Starts building an interface: no name and no function yet.
    pub fn new() -> (r: InterfaceBuilder)
        ensures
            r.name_spec() == Seq::<char>::empty(),
            r.functions_spec() == Seq::<(Seq<char>, (Seq<ValueType>, Option<ValueType>))>::empty(),
    {
        let r = InterfaceBuilder { name: String::new(), functions: Vec::new() };
        assert(r.functions_spec() =~= Seq::<(Seq<char>, (Seq<ValueType>, Option<ValueType>))>::empty());
        r
    }

    /// Returns the hash of the interface.
    pub fn hash(&self) -> (r: &InterfaceHash)
        ensures
            r@ == self.hash_spec(),
    {
        &self.hash
    }

    /// Returns the name of the interface.
    pub fn name(&self) -> (r: &str)
        ensures
            r@ == self.name_spec(),
    {
        self.name.as_str()
    }
}

} // verus!
