//! Names of network interfaces.

use crate::platform::ifnamsiz;
use vstd::prelude::*;
use vstd::string::*;
use vstd::utf8::*;

verus! {

/// The room for a name and the zero byte behind it.
pub const NAME_SIZE: usize = 16;

/// Why a name is refused.
#[derive(Clone, Copy, Debug, PartialEq, Eq, Structural)]
pub enum InterfaceNameError {
    /// There is a zero character in it.
    InteriorNul,
    /// It does not fit with a zero byte behind it.
    TooLong,
}

/// The name of an interface, in UTF-8 and filled up with zero bytes.
#[derive(Debug)]
pub struct ValidatedInterfaceName {
    bytes: [u8; NAME_SIZE],
}

/// Where the first zero byte stands; the length of `bytes` where there is none.
pub open spec fn first_zero(bytes: Seq<u8>) -> nat
    decreases bytes.len(),
{
    if bytes.len() == 0 || bytes[0] == 0 {
        0
    } else {
        1 + first_zero(bytes.skip(1))
    }
}

/// A name as the kernel takes it.
pub open spec fn padded(name: Seq<char>) -> Seq<u8> {
    encode_utf8(name) + Seq::new((NAME_SIZE - encode_utf8(name).len()) as nat, |i: int| 0u8)
}

/// What is made of a name.
pub open spec fn name_check(name: Seq<char>) -> Result<(), InterfaceNameError> {
    if name.contains('\0') {
        Err(InterfaceNameError::InteriorNul)
    } else if encode_utf8(name).len() + 1 > NAME_SIZE {
        Err(InterfaceNameError::TooLong)
    } else {
        Ok(())
    }
}

impl View for ValidatedInterfaceName {
    type V = Seq<char>;

    /// The name.
    closed spec fn view(&self) -> Seq<char> {
        decode_utf8(self.bytes@.take(first_zero(self.bytes@) as int))
    }
}

/// Reads UTF-8 with `core::str::from_utf8`, which succeeds exactly on valid
/// UTF-8 and gives the string with these bytes.
#[verifier::external_body]
fn utf8_str(bytes: &[u8]) -> (r: Option<&str>)
    ensures
        r is Some <==> valid_utf8(bytes@),
        r matches Some(s) ==> s.spec_bytes() == bytes@,
{
    core::str::from_utf8(bytes).ok()
}

impl ValidatedInterfaceName {
    /// The bytes are those of a name that was accepted.
    #[verifier::type_invariant]
    spec fn inv(&self) -> bool {
        &&& valid_utf8(self.bytes@.take(first_zero(self.bytes@) as int))
        &&& name_check(self@) is Ok
        &&& self.bytes@ == padded(self@)
    }

    /// The name.
    pub fn as_str(&self) -> (r: &str)
        ensures
            r@ == self@,
    {
        proof {
            use_type_invariant(self);
        }
        let mut len: usize = 0;
        assert(self.bytes@.skip(0) =~= self.bytes@);
        proof {
            lemma_padded_zero(self@);
        }
        while self.bytes[len] != 0
            invariant
                len <= first_zero(self.bytes@) < NAME_SIZE,
                first_zero(self.bytes@) == len + first_zero(self.bytes@.skip(len as int)),
            decreases NAME_SIZE - len,
        {
            assert(self.bytes@.skip(len as int)[0] == self.bytes@[len as int]);
            assert(self.bytes@.skip(len as int).skip(1) =~= self.bytes@.skip(len + 1));
            len = len + 1;
        }
        let name = vstd::slice::slice_subrange(self.bytes.as_slice(), 0, len);
        proof {
            assert(self.bytes@.skip(len as int)[0] == self.bytes@[len as int]);
            assert(name@ =~= self.bytes@.take(first_zero(self.bytes@) as int));
        }
        let s = utf8_str(name).unwrap();
        proof {
            encode_utf8_decode_utf8(s@);
        }
        s
    }

    /// The name as the kernel takes it, with the zero bytes.
    pub fn as_bytes_with_nul(&self) -> (r: [u8; NAME_SIZE])
        ensures
            r@ == padded(self@),
    {
        proof {
            use_type_invariant(self);
        }
        self.bytes
    }
}

impl Clone for ValidatedInterfaceName {
    fn clone(&self) -> (r: Self)
        ensures
            r == *self,
    {
        proof {
            use_type_invariant(self);
        }
        ValidatedInterfaceName { bytes: self.bytes }
    }
}

/// UTF-8 holds a zero byte only for a zero character.
proof fn lemma_encoding_not_zero(name: Seq<char>)
    requires
        !name.contains('\0'),
    ensures
        forall|i: int| 0 <= i < encode_utf8(name).len() ==> #[trigger] encode_utf8(name)[i] != 0,
    decreases name.len(),
{
    if name.len() > 0 {
        let rest = name.drop_first();
        assert forall|x: char| rest.contains(x) implies name.contains(x) by {
            let i = choose|i: int| 0 <= i < rest.len() && rest[i] == x;
            assert(name[i + 1] == x);
        }
        lemma_encoding_not_zero(rest);
        assert(name.contains(name[0]));
        lemma_char_not_zero(name[0]);
        let head = encode_scalar(name[0] as u32);
        assert forall|i: int| 0 <= i < encode_utf8(name).len() implies #[trigger] encode_utf8(
            name,
        )[i] != 0 by {
            if i < head.len() {
                assert(head[i] != 0);
            } else {
                assert(encode_utf8(name)[i] == encode_utf8(rest)[i - head.len()]);
            }
        }
    }
}

/// No byte of a character's encoding is zero, but for the zero character.
proof fn lemma_char_not_zero(c: char)
    requires
        c != '\0',
    ensures
        forall|i: int| 0 <= i < encode_scalar(c as u32).len() ==> #[trigger] encode_scalar(
            c as u32,
        )[i] != 0,
{
    let scalar = c as u32;
    assert(0 < scalar <= 0x7F ==> (scalar & 0x7F) as u8 != 0) by (bit_vector);
    assert(forall|x: u8| #[trigger] (0xC0 | x) != 0) by (bit_vector);
    assert(forall|x: u8| #[trigger] (0xE0 | x) != 0) by (bit_vector);
    assert(forall|x: u8| #[trigger] (0xF0 | x) != 0) by (bit_vector);
    assert(forall|x: u8| #[trigger] (0x80 | x) != 0) by (bit_vector);
}

/// The first zero stands behind bytes that are not zero.
proof fn lemma_first_zero(head: Seq<u8>, bytes: Seq<u8>)
    requires
        head.len() < bytes.len(),
        bytes.take(head.len() as int) == head,
        bytes[head.len() as int] == 0,
        forall|i: int| 0 <= i < head.len() ==> #[trigger] head[i] != 0,
    ensures
        first_zero(bytes) == head.len(),
    decreases head.len(),
{
    if head.len() > 0 {
        assert(bytes[0] == bytes.take(head.len() as int)[0]);
        assert(head[0] != 0);
        assert(bytes.skip(1).take(head.len() - 1) =~= head.skip(1));
        lemma_first_zero(head.skip(1), bytes.skip(1));
    }
}

/// The zero bytes behind an accepted name start where the name ends.
proof fn lemma_padded_zero(name: Seq<char>)
    requires
        name_check(name) is Ok,
    ensures
        padded(name).len() == NAME_SIZE,
        first_zero(padded(name)) == encode_utf8(name).len(),
        padded(name).take(encode_utf8(name).len() as int) == encode_utf8(name),
        first_zero(padded(name)) < NAME_SIZE,
{
    lemma_encoding_not_zero(name);
    assert(padded(name).take(encode_utf8(name).len() as int) =~= encode_utf8(name));
    lemma_first_zero(encode_utf8(name), padded(name));
}

/// Accepts a name that holds no zero character and fits into the room that the
/// kernel has for it.
pub fn parse_interface(value: &str) -> (r: Result<ValidatedInterfaceName, InterfaceNameError>)
    ensures
        match r {
            Ok(name) => name_check(value@) is Ok && name@ == value@,
            Err(error) => name_check(value@) == Err::<(), InterfaceNameError>(error),
        },
{
    let chars = crate::text::chars_of(value);
    for i in 0..chars.len()
        invariant
            chars@ == value@,
            forall|k: int| 0 <= k < i ==> chars@[k] != '\0',
    {
        if chars[i] == '\0' {
            assert(value@[i as int] == '\0');
            return Err(InterfaceNameError::InteriorNul);
        }
    }
    let source = value.as_bytes();
    if source.len() >= ifnamsiz() {
        return Err(InterfaceNameError::TooLong);
    }
    let mut bytes: [u8; NAME_SIZE] = [0u8; NAME_SIZE];
    for i in 0..source.len()
        invariant
            source@.len() < NAME_SIZE,
            forall|k: int| 0 <= k < i ==> bytes@[k] == source@[k],
            forall|k: int| i <= k < NAME_SIZE ==> bytes@[k] == 0,
    {
        bytes[i] = source[i];
    }
    proof {
        assert(bytes@ =~= padded(value@));
        lemma_padded_zero(value@);
        encode_utf8_decode_utf8(value@);
        encode_utf8_valid_utf8(value@);
    }
    Ok(ValidatedInterfaceName { bytes })
}

impl InterfaceNameError {
    /// Why the name is refused, in words.
    pub fn message(&self) -> (r: &'static str)
        ensures
            r@ == (match self {
                InterfaceNameError::InteriorNul => "value with interior NUL"@,
                InterfaceNameError::TooLong => "value too long"@,
            }),
    {
        match self {
            InterfaceNameError::InteriorNul => "value with interior NUL",
            InterfaceNameError::TooLong => "value too long",
        }
    }
}

/// A name is refused exactly if it holds a zero character or takes more than 15
/// bytes, and the zero character is complained about first. The kernel gets 16
/// bytes: those of the name, and zeros behind them.
pub proof fn law_names(name: Seq<char>)
    ensures
        name_check(name) is Ok <==> !name.contains('\0') && encode_utf8(name).len() <= 15,
        name.contains('\0') ==> name_check(name) == Err::<(), InterfaceNameError>(
            InterfaceNameError::InteriorNul,
        ),
        !name.contains('\0') && encode_utf8(name).len() > 15 ==> name_check(name) == Err::<
            (),
            InterfaceNameError,
        >(InterfaceNameError::TooLong),
        encode_utf8(name).len() <= 15 ==> {
            &&& padded(name).len() == 16
            &&& padded(name).take(encode_utf8(name).len() as int) == encode_utf8(name)
            &&& forall|i: int|
                encode_utf8(name).len() <= i < 16 ==> #[trigger] padded(name)[i] == 0
        },
{
    assert(padded(name).take(encode_utf8(name).len() as int) =~= encode_utf8(name));
}

} // verus!
