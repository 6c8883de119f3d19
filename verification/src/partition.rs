//! The section partitioner: splits the token stream into two independent
//! streams, one per section kind, dropping the section-marker tokens and
//! silently discarding tokens that appear before any section marker.

use vstd::prelude::*;
use crate::error::{AsmError, AsmErrorView};
use crate::token::{Token, TokenType, TokenView, views_of};

verus! {

/// The section that tokens are currently assigned to.
#[derive(Clone, Copy, Debug, PartialEq, Eq, Structural)]
pub enum SectionType {
    /// No section marker has been seen yet.
    Unset,
    /// The `data` section.
    Data,
    /// The `text` section.
    Text,
}

/// The name of the data section.
pub open spec fn data_name() -> Seq<u8> {
    seq![100u8, 97u8, 116u8, 97u8]
}

/// The name of the text section.
pub open spec fn text_name() -> Seq<u8> {
    seq![116u8, 101u8, 120u8, 116u8]
}

/// Whether `text` spells `data`.
pub fn is_data_name(text: &Vec<u8>) -> (r: bool)
    ensures
        r == (text@ == data_name()),
{
    if text.len() != 4 {
        return false;
    }
    let r = text[0] == 100 && text[1] == 97 && text[2] == 116 && text[3] == 97;
    proof {
        if r {
            assert(text@ =~= data_name());
        }
    }
    r
}

/// Whether `text` spells `text`.
pub fn is_text_name(text: &Vec<u8>) -> (r: bool)
    ensures
        r == (text@ == text_name()),
{
    if text.len() != 4 {
        return false;
    }
    let r = text[0] == 116 && text[1] == 101 && text[2] == 120 && text[3] == 116;
    proof {
        if r {
            assert(text@ =~= text_name());
        }
    }
    r
}

/// What the partitioner returns on a token stream, starting in section
/// `cur`: one forward pass assigns every non-section token to the current
/// section, so each output preserves source order; a section marker other
/// than `data` or `text` is a fatal error.
pub open spec fn partition_spec(toks: Seq<TokenView>, cur: SectionType) -> Result<
    (Seq<TokenView>, Seq<TokenView>),
    AsmErrorView,
>
    decreases toks.len(),
{
    if toks.len() == 0 {
        Ok((Seq::empty(), Seq::empty()))
    } else {
        let t = toks[0];
        let rest = toks.drop_first();
        match t.token_type {
            TokenType::Section => {
                if t.text == data_name() {
                    partition_spec(rest, SectionType::Data)
                } else if t.text == text_name() {
                    partition_spec(rest, SectionType::Text)
                } else {
                    Err(AsmErrorView::UnrecognizedSection { name: t.text })
                }
            },
            _ => match partition_spec(rest, cur) {
                Ok(p) => match cur {
                    SectionType::Data => Ok((seq![t] + p.0, p.1)),
                    SectionType::Text => Ok((p.0, seq![t] + p.1)),
                    SectionType::Unset => Ok(p),
                },
                Err(e) => Err(e),
            },
        }
    }
}

/// Splits the token stream into the data-section and text-section token
/// streams, in that order.
pub fn partition_stream(token_stream: Vec<Token>) -> (r: Result<
    (Vec<Token>, Vec<Token>),
    AsmError,
>)
    ensures
        r matches Ok(p) ==> partition_spec(views_of(token_stream@), SectionType::Unset)
            == Ok::<_, AsmErrorView>((views_of(p.0@), views_of(p.1@))),
        r matches Err(e) ==> partition_spec(views_of(token_stream@), SectionType::Unset) == Err::<
            (Seq<TokenView>, Seq<TokenView>),
            _,
        >(e@),
{
    let ghost all = views_of(token_stream@);
    let mut data_stream: Vec<Token> = Vec::new();
    let mut text_stream: Vec<Token> = Vec::new();
    let mut current_section = SectionType::Unset;
    let mut i: usize = 0;
    proof {
        assert(all.skip(0) =~= all);
        if partition_spec(all, SectionType::Unset) is Ok {
            let p = partition_spec(all, SectionType::Unset)->Ok_0;
            assert(views_of(data_stream@) + p.0 =~= p.0);
            assert(views_of(text_stream@) + p.1 =~= p.1);
        }
    }
    while i < token_stream.len()
        invariant
            i <= token_stream@.len(),
            all == views_of(token_stream@),
            partition_spec(all, SectionType::Unset) == (match partition_spec(
                all.skip(i as int),
                current_section,
            ) {
                Ok(p) => Ok::<_, AsmErrorView>(
                    (views_of(data_stream@) + p.0, views_of(text_stream@) + p.1),
                ),
                Err(e) => Err::<(Seq<TokenView>, Seq<TokenView>), _>(e),
            }),
        decreases token_stream@.len() - i,
    {
        let ghost rest = all.skip(i as int);
        let t = &token_stream[i];
        proof {
            assert(rest[0] == t@);
            assert(rest.drop_first() =~= all.skip(i as int + 1));
        }
        match t.token_type {
            TokenType::Section => {
                if is_data_name(&t.text) {
                    current_section = SectionType::Data;
                } else if is_text_name(&t.text) {
                    current_section = SectionType::Text;
                } else {
                    return Err(
                        AsmError::UnrecognizedSection {
                            name: vstd::slice::slice_to_vec(t.text.as_slice()),
                        },
                    );
                }
            },
            _ => {
                match current_section {
                    SectionType::Data => {
                        let ghost before = views_of(data_stream@);
                        data_stream.push(t.duplicate());
                        proof {
                            assert(views_of(data_stream@) =~= before + seq![t@]);
                            if partition_spec(rest.drop_first(), current_section) is Ok {
                                let p = partition_spec(
                                    rest.drop_first(),
                                    current_section,
                                )->Ok_0;
                                assert((before + seq![t@]) + p.0 =~= before + (seq![t@] + p.0));
                            }
                        }
                    },
                    SectionType::Text => {
                        let ghost before = views_of(text_stream@);
                        text_stream.push(t.duplicate());
                        proof {
                            assert(views_of(text_stream@) =~= before + seq![t@]);
                            if partition_spec(rest.drop_first(), current_section) is Ok {
                                let p = partition_spec(
                                    rest.drop_first(),
                                    current_section,
                                )->Ok_0;
                                assert((before + seq![t@]) + p.1 =~= before + (seq![t@] + p.1));
                            }
                        }
                    },
                    SectionType::Unset => {},
                }
            },
        }
        i = i + 1;
    }
    proof {
        assert(all.skip(i as int) =~= Seq::<TokenView>::empty());
        assert(views_of(data_stream@) + Seq::<TokenView>::empty() =~= views_of(data_stream@));
        assert(views_of(text_stream@) + Seq::<TokenView>::empty() =~= views_of(text_stream@));
    }
    Ok((data_stream, text_stream))
}

} // verus!
