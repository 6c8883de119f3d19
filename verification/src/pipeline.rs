//! The whole assembly pipeline: source text to 256-byte memory image.
//! Lexing, partitioning, the data-section pass, the text-section pass
//! (reusing the data pass's label table), and the image layout run in
//! strict sequence; the first fatal error aborts the translation.

use vstd::prelude::*;
use crate::assemble::{IMAGE_SIZE, assemble_section, assemble_spec, lemma_assemble_fits};
use crate::error::{AsmError, AsmErrorView};
use crate::image::{HEADER_SIZE, build_image, image_spec};
use crate::labels::LabelTable;
use crate::lexer::{lex_spec, scanner};
use crate::partition::{SectionType, partition_spec, partition_stream};
use crate::token::views_of;

verus! {

/// What the pipeline produces on a source text: either the finished
/// 256-byte image or the first fatal error.  The data section is assembled
/// from base address 16 with an empty label table, the text section from
/// the address right after the data bytes with the table the data pass
/// left; the combined sections must fit the image and the text section's
/// base address — the entry point — must be a valid address.
pub open spec fn eval_spec(src: Seq<u8>) -> Result<Seq<u8>, AsmErrorView> {
    match lex_spec(src) {
        Err(e) => Err(e),
        Ok(toks) => match partition_spec(toks, SectionType::Unset) {
            Err(e) => Err(e),
            Ok(streams) => match assemble_spec(
                streams.0,
                HEADER_SIZE as int,
                Map::<Seq<u8>, u8>::empty(),
            ) {
                Err(e) => Err(e),
                Ok(data_pass) => match assemble_spec(
                    streams.1,
                    HEADER_SIZE + data_pass.0.len(),
                    data_pass.1,
                ) {
                    Err(e) => Err(e),
                    Ok(text_pass) => {
                        if HEADER_SIZE + data_pass.0.len() + text_pass.0.len() > IMAGE_SIZE {
                            Err(
                                AsmErrorView::CapacityExceeded {
                                    required: HEADER_SIZE + data_pass.0.len() + text_pass.0.len(),
                                    available: IMAGE_SIZE as int,
                                },
                            )
                        } else if HEADER_SIZE + data_pass.0.len() >= IMAGE_SIZE {
                            Err(
                                AsmErrorView::CapacityExceeded {
                                    required: HEADER_SIZE + data_pass.0.len() + 1,
                                    available: IMAGE_SIZE as int,
                                },
                            )
                        } else {
                            Ok(image_spec(data_pass.0, text_pass.0))
                        }
                    },
                },
            },
        },
    }
}

/// Translates a source text into the finished 256-byte memory image, or
/// stops at the first fatal error.
pub fn eval(src: &[u8]) -> (r: Result<Vec<u8>, AsmError>)
    ensures
        r matches Ok(image) ==> eval_spec(src@) == Ok::<_, AsmErrorView>(image@) && image@.len()
            == IMAGE_SIZE,
        r matches Err(e) ==> eval_spec(src@) == Err::<Seq<u8>, _>(e@),
{
    let token_stream = match scanner(src) {
        Ok(toks) => toks,
        Err(e) => {
            return Err(e);
        },
    };
    let streams = match partition_stream(token_stream) {
        Ok(p) => p,
        Err(e) => {
            return Err(e);
        },
    };
    let (data_stream, text_stream) = streams;
    let table = LabelTable::new();
    let data_pass = match assemble_section(&data_stream, HEADER_SIZE, table) {
        Ok(p) => p,
        Err(e) => {
            return Err(e);
        },
    };
    let (data_section, table) = data_pass;
    proof {
        lemma_assemble_fits(
            views_of(data_stream@),
            HEADER_SIZE as int,
            Map::<Seq<u8>, u8>::empty(),
        );
    }
    let text_base = HEADER_SIZE + data_section.len();
    let data_table = table;
    let ghost data_table_view = data_table@;
    let text_pass = match assemble_section(&text_stream, text_base, data_table) {
        Ok(p) => p,
        Err(e) => {
            return Err(e);
        },
    };
    let (text_section, _table) = text_pass;
    proof {
        lemma_assemble_fits(views_of(text_stream@), text_base as int, data_table_view);
    }
    if data_section.len() + text_section.len() > IMAGE_SIZE - HEADER_SIZE {
        return Err(
            AsmError::CapacityExceeded {
                required: HEADER_SIZE + data_section.len() + text_section.len(),
                available: IMAGE_SIZE,
            },
        );
    }
    build_image(&data_section, &text_section)
}

} // verus!
