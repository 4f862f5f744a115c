//! The image that a HAT carries in its ID EEPROM, as far as finding out how long
//! it is.
//!
//! Its header holds `"R-Pi"`, a format version and a reserved byte, the atom
//! count, then the image length. Only the signature and that length are read.

use vstd::prelude::*;

verus! {

/// How long the header is.
pub const HAT_HEADER_LEN: u32 = 12;

/// What the header starts with: `"R-Pi"`.
pub const HAT_SIGNATURE: [u8; 4] = [0x52, 0x2D, 0x50, 0x69];

/// Where the image length sits within the header.
pub const HAT_EEPLEN_AT: usize = 8;

/// Ceiling on an image length taken from the header, matching what a two-byte
/// address can reach: a corrupt header should be an error, not a request to
/// read four gigabytes.
pub const HAT_MAX_IMAGE: u32 = 0x1_0000;

/// Why a header gives no image length.
#[derive(Clone, Copy, Debug, PartialEq, Eq, Structural)]
pub enum HatError {
    /// There is no signature.
    NoSignature { address: u8, offset: u32 },
    /// The length it claims is not plausible.
    Implausible(u32),
}

/// Whether bytes start with the signature.
pub open spec fn is_signed(bytes: Seq<u8>) -> bool {
    HAT_SIGNATURE@.is_prefix_of(bytes)
}

/// The text of an error.
pub open spec fn error_text(error: HatError) -> Seq<u8> {
    match error {
        HatError::NoSignature { address, offset } => vstd::utf8::encode_utf8("0x"@)
            + crate::text::hex(address as nat, 2) + vstd::utf8::encode_utf8(
            " does not hold a HAT image (no \"R-Pi\" signature at offset "@,
        ) + crate::text::decimal(offset as nat) + vstd::utf8::encode_utf8(
            "); pass --length to read it anyway"@,
        ),
        HatError::Implausible(len) => vstd::utf8::encode_utf8(
            "the HAT header claims an image length of "@,
        ) + crate::text::decimal(len as nat) + vstd::utf8::encode_utf8(
            " bytes, which is not plausible; pass --length to read it anyway"@,
        ),
    }
}

impl HatError {
    /// The error in words.
    pub fn message(&self) -> (res: String)
        ensures
            vstd::utf8::encode_utf8(res@) == error_text(*self),
    {
        let mut text: Vec<u8> = Vec::new();
        match self {
            HatError::NoSignature { address, offset } => {
                crate::text::push_text(&mut text, "0x");
                crate::text::push_hex_text(&mut text, *address as u64, 2);
                crate::text::push_text(
                    &mut text,
                    " does not hold a HAT image (no \"R-Pi\" signature at offset ",
                );
                crate::text::push_decimal_text(&mut text, *offset as u64);
                crate::text::push_text(&mut text, "); pass --length to read it anyway");
            },
            HatError::Implausible(len) => {
                crate::text::push_text(&mut text, "the HAT header claims an image length of ");
                crate::text::push_decimal_text(&mut text, *len as u64);
                crate::text::push_text(
                    &mut text,
                    " bytes, which is not plausible; pass --length to read it anyway",
                );
            },
        }
        proof {
            assert(text@ =~= error_text(*self));
        }
        crate::text::to_text(&text)
    }
}

/// Whether bytes start with the signature.
pub fn has_signature(bytes: &[u8]) -> (res: bool)
    ensures
        res == is_signed(bytes@),
{
    if bytes.len() < 4 {
        return false;
    }
    let head = crate::text::part(bytes, 0, 4);
    let res = crate::text::equal_bytes(head, &HAT_SIGNATURE);
    proof {
        if is_signed(bytes@) {
            assert(head@ =~= HAT_SIGNATURE@);
        }
        if head@ == HAT_SIGNATURE@ {
            assert forall|i: int| 0 <= i < 4 implies bytes@[i] == HAT_SIGNATURE@[i] by {
                assert(bytes@[i] == head@[i]);
            }
            assert(bytes@.take(4) =~= HAT_SIGNATURE@);
        }
    }
    res
}

/// The image length that a header read at `offset` from the EEPROM at
/// `address` claims.
///
/// The alternative would be to read the whole address space. An EEPROM without
/// a valid header is asked for by length instead, which the errors say.
pub fn hat_image_length(header: &[u8], address: u8, offset: u32) -> (res: Result<u32, HatError>)
    requires
        header@.len() == HAT_HEADER_LEN,
    ensures
        res is Ok <==> header@[0] == 0x52 && header@[1] == 0x2D && header@[2] == 0x50 && header@[3]
            == 0x69 && 12 <= crate::rules::little(header@.subrange(8, 12)) <= 0x1_0000,
        res matches Ok(len) ==> len == crate::rules::little(header@.subrange(8, 12)),
        res == ({
            let len = crate::wire::u32_at(header@, HAT_EEPLEN_AT as int);
            if !is_signed(header@) {
                Err::<u32, HatError>(HatError::NoSignature { address, offset })
            } else if len < HAT_HEADER_LEN || len > HAT_MAX_IMAGE {
                Err(HatError::Implausible(len))
            } else {
                Ok(len)
            }
        }),
{
    proof {
        crate::outputs::which_images_are_signed(header@);
        crate::rules::lemma_read(header@.subrange(8, 12));
        assert(crate::wire::u32_at(header@.subrange(8, 12), 0) == crate::wire::u32_at(header@, 8));
    }
    if !has_signature(header) {
        return Err(HatError::NoSignature { address, offset });
    }
    let len: u32 = crate::wire::read_u32(header, HAT_EEPLEN_AT);
    if len < HAT_HEADER_LEN || len > HAT_MAX_IMAGE {
        return Err(HatError::Implausible(len));
    }
    Ok(len)
}

/// What there is to say of an image before it is programmed.
#[derive(Clone, Copy, Debug, PartialEq, Eq, Structural)]
pub enum Image {
    /// It is empty, which is an error.
    Empty,
    /// It is to start the EEPROM and does not start with the signature. A
    /// warning rather than an error: only the usual EEPROM on this bus holds a
    /// HAT image.
    Unsigned,
    /// Nothing.
    Fine,
}

/// Looks at an image that is to be programmed at `offset`.
pub fn check_image(data: &[u8], offset: u32) -> (res: Image)
    ensures
        res == if data@.len() == 0 {
            Image::Empty
        } else if offset == 0 && !is_signed(data@) {
            Image::Unsigned
        } else {
            Image::Fine
        },
        res == Image::Unsigned <==> data@.len() > 0 && offset == 0 && !(data@.len() >= 4 && data@[0]
            == 0x52 && data@[1] == 0x2D && data@[2] == 0x50 && data@[3] == 0x69),
{
    proof {
        crate::outputs::which_images_are_signed(data@);
    }
    if data.len() == 0 {
        Image::Empty
    } else if offset == 0 && !has_signature(data) {
        Image::Unsigned
    } else {
        Image::Fine
    }
}

/// What is said of an image that is called `place`, if anything.
pub open spec fn image_text(image: Image, place: Seq<u8>) -> Option<Seq<u8>> {
    match image {
        Image::Empty => Some(place + vstd::utf8::encode_utf8(" is empty"@)),
        Image::Unsigned => Some(
            vstd::utf8::encode_utf8("Warning: "@) + place + vstd::utf8::encode_utf8(
                " does not start with the HAT signature \"R-Pi\"; writing it anyway."@,
            ),
        ),
        Image::Fine => None,
    }
}

impl Image {
    /// What to say of an image that is called `place`, if anything.
    pub fn message(&self, place: &str) -> (res: Option<String>)
        ensures
            match res {
                Some(text) => image_text(*self, vstd::utf8::encode_utf8(place@)) == Some(
                    vstd::utf8::encode_utf8(text@),
                ),
                None => image_text(*self, vstd::utf8::encode_utf8(place@)) is None,
            },
    {
        let mut text: Vec<u8> = Vec::new();
        match self {
            Image::Empty => {
                crate::text::push_text(&mut text, place);
                crate::text::push_text(&mut text, " is empty");
            },
            Image::Unsigned => {
                crate::text::push_text(&mut text, "Warning: ");
                crate::text::push_text(&mut text, place);
                crate::text::push_text(
                    &mut text,
                    " does not start with the HAT signature \"R-Pi\"; writing it anyway.",
                );
            },
            Image::Fine => return None,
        }
        proof {
            let said = image_text(*self, vstd::utf8::encode_utf8(place@));
            assert(said is Some);
            assert(text@ =~= said->0);
        }
        Some(crate::text::to_text(&text))
    }
}

} // verus!
