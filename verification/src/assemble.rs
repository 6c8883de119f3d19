//! The section assembler: one forward pass over a section's token stream
//! that resolves label definitions to absolute addresses, resolves numeric
//! and symbolic operands to concrete byte values, and produces the dense
//! byte sequence of the section together with the updated label table.

use vstd::prelude::*;
use crate::chars::{
    all_alpha, all_digits, digits_val, numeric_value, text_all_alpha, text_all_digits,
};
use crate::error::{AsmError, AsmErrorView};
use crate::labels::LabelTable;
use crate::token::{Token, TokenType, TokenView, views_of};

verus! {

/// The image size: 256 byte slots, addressed 0-255.
pub const IMAGE_SIZE: usize = 256;

/// What one assembly pass returns, starting at address `addr` (the base
/// address of the section plus the bytes already emitted) with label table
/// `table`.  Left to right:
/// - a label is bound to the current address, which must be a valid slot;
/// - an all-digit operand emits its byte value, which must be 0-255;
/// - an all-letter operand emits the address its label is already bound
///   to, and is a fatal error when no binding exists yet;
/// - an operand of any other shape is silently skipped;
/// - a byte may only be emitted at a valid slot: a program that runs past
///   the end of the image is a fatal capacity error.
pub open spec fn assemble_spec(toks: Seq<TokenView>, addr: int, table: Map<Seq<u8>, u8>) -> Result<
    (Seq<u8>, Map<Seq<u8>, u8>),
    AsmErrorView,
>
    decreases toks.len(),
{
    if toks.len() == 0 {
        Ok((Seq::empty(), table))
    } else {
        let t = toks[0];
        let rest = toks.drop_first();
        match t.token_type {
            TokenType::Label => {
                if addr >= IMAGE_SIZE {
                    Err(AsmErrorView::CapacityExceeded { required: addr + 1, available: IMAGE_SIZE as int })
                } else {
                    assemble_spec(rest, addr, table.insert(t.text, addr as u8))
                }
            },
            TokenType::Operand => {
                if all_digits(t.text) {
                    if digits_val(t.text) > 255 {
                        Err(AsmErrorView::MalformedNumericOperand { text: t.text })
                    } else if addr >= IMAGE_SIZE {
                        Err(AsmErrorView::CapacityExceeded { required: addr + 1, available: IMAGE_SIZE as int })
                    } else {
                        match assemble_spec(rest, addr + 1, table) {
                            Ok(p) => Ok((seq![digits_val(t.text) as u8] + p.0, p.1)),
                            Err(e) => Err(e),
                        }
                    }
                } else if all_alpha(t.text) {
                    if !table.contains_key(t.text) {
                        Err(AsmErrorView::UnresolvedLabel { name: t.text })
                    } else if addr >= IMAGE_SIZE {
                        Err(AsmErrorView::CapacityExceeded { required: addr + 1, available: IMAGE_SIZE as int })
                    } else {
                        match assemble_spec(rest, addr + 1, table) {
                            Ok(p) => Ok((seq![table[t.text]] + p.0, p.1)),
                            Err(e) => Err(e),
                        }
                    }
                } else {
                    assemble_spec(rest, addr, table)
                }
            },
            TokenType::Section => assemble_spec(rest, addr, table),
        }
    }
}

/// A pass that succeeds never runs past the image: every emitted byte
/// stands at a valid slot, so the section ends at address 256 at the
/// latest.
pub proof fn lemma_assemble_fits(toks: Seq<TokenView>, addr: int, table: Map<Seq<u8>, u8>)
    requires
        assemble_spec(toks, addr, table) is Ok,
    ensures
        assemble_spec(toks, addr, table)->Ok_0.0.len() > 0 ==> addr + assemble_spec(
            toks,
            addr,
            table,
        )->Ok_0.0.len() <= IMAGE_SIZE,
    decreases toks.len(),
{
    if toks.len() > 0 {
        let t = toks[0];
        let rest = toks.drop_first();
        match t.token_type {
            TokenType::Label => {
                lemma_assemble_fits(rest, addr, table.insert(t.text, addr as u8));
            },
            TokenType::Operand => {
                if all_digits(t.text) {
                    lemma_assemble_fits(rest, addr + 1, table);
                } else if all_alpha(t.text) {
                    lemma_assemble_fits(rest, addr + 1, table);
                } else {
                    lemma_assemble_fits(rest, addr, table);
                }
            },
            TokenType::Section => {
                lemma_assemble_fits(rest, addr, table);
            },
        }
    }
}

/// Whether the token stream defines a label named `name`.
pub open spec fn defines_label(toks: Seq<TokenView>, name: Seq<u8>) -> bool {
    exists|i: int| 0 <= i < toks.len() && toks[i].token_type is Label && toks[i].text == name
}

/// A pass that defines no label named `name` leaves the binding of `name`
/// exactly as it found it.
pub proof fn lemma_undefined_label_preserved(
    toks: Seq<TokenView>,
    addr: int,
    table: Map<Seq<u8>, u8>,
    name: Seq<u8>,
)
    requires
        assemble_spec(toks, addr, table) is Ok,
        !defines_label(toks, name),
    ensures
        ({
            let m = assemble_spec(toks, addr, table)->Ok_0.1;
            &&& m.contains_key(name) == table.contains_key(name)
            &&& table.contains_key(name) ==> m[name] == table[name]
        }),
    decreases toks.len(),
{
    if toks.len() > 0 {
        let t = toks[0];
        let rest = toks.drop_first();
        assert(!defines_label(rest, name)) by {
            if defines_label(rest, name) {
                let i = choose|i: int|
                    0 <= i < rest.len() && rest[i].token_type is Label && rest[i].text == name;
                assert(toks[i + 1].token_type is Label && toks[i + 1].text == name);
            }
        }
        match t.token_type {
            TokenType::Label => {
                assert(t.text != name);
                lemma_undefined_label_preserved(rest, addr, table.insert(t.text, addr as u8), name);
            },
            TokenType::Operand => {
                if all_digits(t.text) {
                    lemma_undefined_label_preserved(rest, addr + 1, table, name);
                } else if all_alpha(t.text) {
                    lemma_undefined_label_preserved(rest, addr + 1, table, name);
                } else {
                    lemma_undefined_label_preserved(rest, addr, table, name);
                }
            },
            TokenType::Section => {
                lemma_undefined_label_preserved(rest, addr, table, name);
            },
        }
    }
}

/// Law of label-resolution determinism: the address that a pass binds a
/// label to depends only on the pass's own tokens and base address, never
/// on the table it started from.  In particular, when the text-section
/// pass runs after the data-section pass and reuses the table, a label
/// name defined in both sections ends bound to its text-section address:
/// the later definition wins for every subsequent lookup.
pub proof fn lemma_later_definition_wins(
    toks: Seq<TokenView>,
    addr: int,
    t1: Map<Seq<u8>, u8>,
    t2: Map<Seq<u8>, u8>,
    name: Seq<u8>,
)
    requires
        assemble_spec(toks, addr, t1) is Ok,
        assemble_spec(toks, addr, t2) is Ok,
        defines_label(toks, name),
    ensures
        ({
            let m1 = assemble_spec(toks, addr, t1)->Ok_0.1;
            let m2 = assemble_spec(toks, addr, t2)->Ok_0.1;
            &&& m1.contains_key(name)
            &&& m2.contains_key(name)
            &&& m1[name] == m2[name]
        }),
    decreases toks.len(),
{
    let t = toks[0];
    let rest = toks.drop_first();
    let ghost shifted = defines_label(rest, name);
    if !shifted {
        let i = choose|i: int|
            0 <= i < toks.len() && toks[i].token_type is Label && toks[i].text == name;
        if i > 0 {
            assert(rest[i - 1].token_type is Label && rest[i - 1].text == name);
        }
        assert(t.token_type is Label && t.text == name);
    }
    match t.token_type {
        TokenType::Label => {
            let u1 = t1.insert(t.text, addr as u8);
            let u2 = t2.insert(t.text, addr as u8);
            if shifted {
                lemma_later_definition_wins(rest, addr, u1, u2, name);
            } else {
                lemma_undefined_label_preserved(rest, addr, u1, name);
                lemma_undefined_label_preserved(rest, addr, u2, name);
            }
        },
        TokenType::Operand => {
            if all_digits(t.text) {
                lemma_later_definition_wins(rest, addr + 1, t1, t2, name);
            } else if all_alpha(t.text) {
                lemma_later_definition_wins(rest, addr + 1, t1, t2, name);
            } else {
                lemma_later_definition_wins(rest, addr, t1, t2, name);
            }
        },
        TokenType::Section => {
            lemma_later_definition_wins(rest, addr, t1, t2, name);
        },
    }
}

/// Runs one assembly pass over a section's tokens.  `addr` is the
/// section's base address; on success the section's bytes and the updated
/// label table come back.
#[verifier::loop_isolation(false)]
pub fn assemble_section(tokens: &Vec<Token>, addr: usize, table: LabelTable) -> (r: Result<
    (Vec<u8>, LabelTable),
    AsmError,
>)
    requires
        addr <= IMAGE_SIZE,
    ensures
        r matches Ok(p) ==> assemble_spec(views_of(tokens@), addr as int, table@) == Ok::<
            _,
            AsmErrorView,
        >((p.0@, p.1@)),
        r matches Err(e) ==> assemble_spec(views_of(tokens@), addr as int, table@) == Err::<
            (Seq<u8>, Map<Seq<u8>, u8>),
            _,
        >(e@),
{
    let ghost all = views_of(tokens@);
    let ghost table0 = table@;
    let mut table = table;
    let mut section: Vec<u8> = Vec::new();
    let mut cur: usize = addr;
    let mut i: usize = 0;
    proof {
        assert(all.skip(0) =~= all);
        if assemble_spec(all, addr as int, table0) is Ok {
            let p = assemble_spec(all, addr as int, table0)->Ok_0;
            assert(section@ + p.0 =~= p.0);
        }
    }
    while i < tokens.len()
        invariant
            i <= tokens@.len(),
            all == views_of(tokens@),
            cur <= IMAGE_SIZE,
            cur as int == addr + section@.len(),
            assemble_spec(all, addr as int, table0) == (match assemble_spec(
                all.skip(i as int),
                cur as int,
                table@,
            ) {
                Ok(p) => Ok::<_, AsmErrorView>((section@ + p.0, p.1)),
                Err(e) => Err::<(Seq<u8>, Map<Seq<u8>, u8>), _>(e),
            }),
        decreases tokens@.len() - i,
    {
        let ghost rest = all.skip(i as int);
        let t = &tokens[i];
        proof {
            assert(rest[0] == t@);
            assert(rest.drop_first() =~= all.skip(i as int + 1));
        }
        match t.token_type {
            TokenType::Label => {
                if cur >= IMAGE_SIZE {
                    return Err(
                        AsmError::CapacityExceeded { required: cur + 1, available: IMAGE_SIZE },
                    );
                }
                let name = vstd::slice::slice_to_vec(t.text.as_slice());
                table.insert(name, cur as u8);
            },
            TokenType::Operand => {
                if text_all_digits(&t.text) {
                    let value = numeric_value(&t.text);
                    match value {
                        Option::None => {
                            return Err(
                                AsmError::MalformedNumericOperand {
                                    text: vstd::slice::slice_to_vec(t.text.as_slice()),
                                },
                            );
                        },
                        Option::Some(b) => {
                            if cur >= IMAGE_SIZE {
                                return Err(
                                    AsmError::CapacityExceeded {
                                        required: cur + 1,
                                        available: IMAGE_SIZE,
                                    },
                                );
                            }
                            let ghost before = section@;
                            section.push(b);
                            cur = cur + 1;
                            proof {
                                assert(section@ =~= before + seq![b]);
                                if assemble_spec(rest.drop_first(), cur as int, table@) is Ok {
                                    let p = assemble_spec(
                                        rest.drop_first(),
                                        cur as int,
                                        table@,
                                    )->Ok_0;
                                    assert((before + seq![b]) + p.0 =~= before + (seq![b] + p.0));
                                }
                            }
                        },
                    }
                } else if text_all_alpha(&t.text) {
                    let found = table.lookup(&t.text);
                    match found {
                        Option::None => {
                            return Err(
                                AsmError::UnresolvedLabel {
                                    name: vstd::slice::slice_to_vec(t.text.as_slice()),
                                },
                            );
                        },
                        Option::Some(b) => {
                            if cur >= IMAGE_SIZE {
                                return Err(
                                    AsmError::CapacityExceeded {
                                        required: cur + 1,
                                        available: IMAGE_SIZE,
                                    },
                                );
                            }
                            let ghost before = section@;
                            section.push(b);
                            cur = cur + 1;
                            proof {
                                assert(section@ =~= before + seq![b]);
                                if assemble_spec(rest.drop_first(), cur as int, table@) is Ok {
                                    let p = assemble_spec(
                                        rest.drop_first(),
                                        cur as int,
                                        table@,
                                    )->Ok_0;
                                    assert((before + seq![b]) + p.0 =~= before + (seq![b] + p.0));
                                }
                            }
                        },
                    }
                }
            },
            TokenType::Section => {},
        }
        i = i + 1;
    }
    proof {
        assert(all.skip(i as int) =~= Seq::<TokenView>::empty());
        assert(section@ + Seq::<u8>::empty() =~= section@);
    }
    Ok((section, table))
}

} // verus!
