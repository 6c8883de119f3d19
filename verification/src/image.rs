//! The image builder: lays out the data section immediately after the
//! fixed 16-byte header region, the text section immediately after the
//! data section, writes the entry-point address into byte 0, and leaves
//! every other byte zero.

use vstd::prelude::*;
use crate::assemble::IMAGE_SIZE;
use crate::error::{AsmError, AsmErrorView};

verus! {

/// The fixed header region: bytes 0 to 15 of the image.
pub const HEADER_SIZE: usize = 16;

/// The 256-byte memory image holding sections `data` and `text`: byte 0 is
/// the entry point (the address where the text section begins), bytes 1-15
/// are reserved zero padding, the data bytes start at byte 16, the text
/// bytes follow them, and the rest is zero-filled.
pub open spec fn image_spec(data: Seq<u8>, text: Seq<u8>) -> Seq<u8> {
    Seq::new(
        IMAGE_SIZE as nat,
        |i: int|
            if i == 0 {
                (HEADER_SIZE + data.len()) as u8
            } else if HEADER_SIZE <= i < HEADER_SIZE + data.len() {
                data[i - HEADER_SIZE]
            } else if HEADER_SIZE + data.len() <= i < HEADER_SIZE + data.len() + text.len() {
                text[i - HEADER_SIZE - data.len()]
            } else {
                0u8
            },
    )
}

/// Whether sections of `d` data bytes and `t` text bytes fit the image:
/// the combined sections may not run past the last byte, and the entry
/// point (the address where the text section begins) must itself be a
/// valid address.
pub open spec fn fits_image(d: int, t: int) -> bool {
    HEADER_SIZE + d + t <= IMAGE_SIZE && HEADER_SIZE + d < IMAGE_SIZE
}

/// Law of the round-trip layout: whenever the sections fit, the built
/// image holds the entry point at byte 0, the data bytes from byte 16, the
/// text bytes immediately after them, and zero everywhere else.
pub proof fn lemma_image_layout(data: Seq<u8>, text: Seq<u8>)
    requires
        fits_image(data.len() as int, text.len() as int),
    ensures
        image_spec(data, text).len() == IMAGE_SIZE,
        image_spec(data, text)[0] == HEADER_SIZE + data.len(),
        image_spec(data, text).subrange(
            HEADER_SIZE as int,
            HEADER_SIZE + data.len(),
        ) == data,
        image_spec(data, text).subrange(
            HEADER_SIZE + data.len(),
            HEADER_SIZE + data.len() + text.len(),
        ) == text,
        forall|i: int|
            (0 < i < HEADER_SIZE || HEADER_SIZE + data.len() + text.len() <= i < IMAGE_SIZE)
                ==> image_spec(data, text)[i] == 0,
{
    assert(image_spec(data, text).subrange(HEADER_SIZE as int, HEADER_SIZE + data.len()) =~= data);
    assert(image_spec(data, text).subrange(
        HEADER_SIZE + data.len(),
        HEADER_SIZE + data.len() + text.len(),
    ) =~= text);
}

/// Packs the two section byte sequences into the fixed 256-byte image, or
/// fails with the capacity error when they do not fit (defense in depth:
/// the capacity should already have been enforced during text assembly).
pub fn build_image(data: &Vec<u8>, text: &Vec<u8>) -> (r: Result<Vec<u8>, AsmError>)
    requires
        HEADER_SIZE + data@.len() + text@.len() <= usize::MAX,
    ensures
        r is Ok <==> fits_image(data@.len() as int, text@.len() as int),
        r matches Ok(image) ==> image@ == image_spec(data@, text@),
        r matches Err(e) ==> e@ == (if HEADER_SIZE + data@.len() + text@.len() > IMAGE_SIZE {
            AsmErrorView::CapacityExceeded {
                required: HEADER_SIZE + data@.len() + text@.len(),
                available: IMAGE_SIZE as int,
            }
        } else {
            AsmErrorView::CapacityExceeded {
                required: HEADER_SIZE + data@.len() + 1,
                available: IMAGE_SIZE as int,
            }
        }),
{
    if data.len() > IMAGE_SIZE - HEADER_SIZE || text.len() > IMAGE_SIZE - HEADER_SIZE - data.len()
    {
        return Err(
            AsmError::CapacityExceeded {
                required: HEADER_SIZE + data.len() + text.len(),
                available: IMAGE_SIZE,
            },
        );
    }
    if data.len() >= IMAGE_SIZE - HEADER_SIZE {
        return Err(
            AsmError::CapacityExceeded { required: HEADER_SIZE + data.len() + 1, available: IMAGE_SIZE },
        );
    }
    let text_offset: usize = HEADER_SIZE + data.len();
    let mut image: Vec<u8> = Vec::new();
    image.push(text_offset as u8);
    let mut i: usize = 1;
    while i < HEADER_SIZE
        invariant
            1 <= i <= HEADER_SIZE,
            image@.len() == i,
            image@[0] == text_offset as u8,
            forall|j: int| 1 <= j < i ==> image@[j] == 0,
        decreases HEADER_SIZE - i,
    {
        image.push(0);
        i = i + 1;
    }
    let mut k: usize = 0;
    while k < data.len()
        invariant
            k <= data@.len(),
            HEADER_SIZE + data@.len() < IMAGE_SIZE,
            image@.len() == HEADER_SIZE + k,
            image@[0] == text_offset as u8,
            text_offset == HEADER_SIZE + data@.len(),
            forall|j: int| 1 <= j < HEADER_SIZE ==> image@[j] == 0,
            forall|j: int| 0 <= j < k ==> image@[HEADER_SIZE + j] == data@[j],
        decreases data@.len() - k,
    {
        image.push(data[k]);
        k = k + 1;
    }
    let mut k: usize = 0;
    while k < text.len()
        invariant
            k <= text@.len(),
            HEADER_SIZE + data@.len() + text@.len() <= IMAGE_SIZE,
            HEADER_SIZE + data@.len() < IMAGE_SIZE,
            image@.len() == HEADER_SIZE + data@.len() + k,
            image@[0] == text_offset as u8,
            text_offset == HEADER_SIZE + data@.len(),
            forall|j: int| 1 <= j < HEADER_SIZE ==> image@[j] == 0,
            forall|j: int| 0 <= j < data@.len() ==> image@[HEADER_SIZE + j] == data@[j],
            forall|j: int| 0 <= j < k ==> image@[HEADER_SIZE + data@.len() + j] == text@[j],
        decreases text@.len() - k,
    {
        image.push(text[k]);
        k = k + 1;
    }
    while image.len() < IMAGE_SIZE
        invariant
            HEADER_SIZE + data@.len() + text@.len() <= image@.len() <= IMAGE_SIZE,
            HEADER_SIZE + data@.len() < IMAGE_SIZE,
            image@[0] == text_offset as u8,
            text_offset == HEADER_SIZE + data@.len(),
            forall|j: int| 1 <= j < HEADER_SIZE ==> image@[j] == 0,
            forall|j: int| 0 <= j < data@.len() ==> image@[HEADER_SIZE + j] == data@[j],
            forall|j: int|
                0 <= j < text@.len() ==> image@[HEADER_SIZE + data@.len() + j] == text@[j],
            forall|j: int|
                HEADER_SIZE + data@.len() + text@.len() <= j < image@.len() ==> image@[j] == 0,
        decreases IMAGE_SIZE - image@.len(),
    {
        image.push(0);
    }
    proof {
        assert(image@ =~= image_spec(data@, text@));
    }
    Ok(image)
}

} // verus!
