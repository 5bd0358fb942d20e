use beamr::atom::{Atom, AtomTable};
use beamr::error::LoadError;
use beamr::loader::decode::bounded::BoundedCursor;
use beamr::loader::decode::budget::{DecodeBudget, MAX_ETF_DEPTH, MAX_TABLE_ENTRIES};
use beamr::loader::decode::chunks::{
    accept_inflated, decode_atom_chunk, decode_export_chunk, decode_import_chunk,
    decode_lambda_chunk, decode_line_chunk, decode_literal_chunk, decode_string_chunk, ExportEntry,
    ImportEntry,
};
use beamr::loader::decode::code::{
    decode_code_chunk, decode_instructions, decode_instructions_and_literals,
};
use beamr::loader::decode::compact::{CompactDecoder, Operand};
use beamr::loader::decode::etf::decode_external_term;
use beamr::loader::decode::instruction::{instruction_opcode, Instruction};
use beamr::loader::decode::literal::Literal;
use beamr::loader::decode::names::opcode_name;
use beamr::loader::decode::numbers::{magnitude_le as payload_magnitude, read_word};
use beamr::loader::decode::opcode::opcode_arity;
use flate2::write::ZlibEncoder;
use flate2::Compression;
use std::io::Write;

fn zlib(bytes: &[u8]) -> Vec<u8> {
    let mut encoder = ZlibEncoder::new(Vec::new(), Compression::best());
    encoder.write_all(bytes).expect("zlib write");
    encoder.finish().expect("zlib finish")
}

fn message_of<T: std::fmt::Debug>(result: Result<T, LoadError>) -> String {
    match result {
        Err(LoadError::DecodeError(message)) => message,
        other => panic!("expected DecodeError, got {other:?}"),
    }
}

#[test]
fn decode_literal_chunk_decodes_new_float_ext() {
    let mut atom_table = AtomTable::with_common_atoms();
    let mut bytes = Vec::new();
    bytes.extend_from_slice(&0u32.to_be_bytes());
    bytes.extend_from_slice(&1u32.to_be_bytes());
    bytes.extend_from_slice(&10u32.to_be_bytes());
    bytes.push(131);
    bytes.push(70);
    bytes.extend_from_slice(&1.5f64.to_bits().to_be_bytes());

    let mut budget = DecodeBudget::default();
    let literals =
        decode_literal_chunk(&bytes, &mut atom_table, &mut budget).expect("literal chunk");
    assert_eq!(literals, vec![Literal::Float(1.5f64.to_bits())]);
}

#[test]
fn decode_literal_chunk_rejects_truncated_new_float_ext() {
    let mut atom_table = AtomTable::with_common_atoms();
    let mut bytes = Vec::new();
    bytes.extend_from_slice(&0u32.to_be_bytes());
    bytes.extend_from_slice(&1u32.to_be_bytes());
    bytes.extend_from_slice(&9u32.to_be_bytes());
    bytes.push(131);
    bytes.push(70);
    bytes.extend_from_slice(&1.5f64.to_bits().to_be_bytes()[..7]);

    let mut budget = DecodeBudget::default();
    assert!(decode_literal_chunk(&bytes, &mut atom_table, &mut budget).is_err());
}

#[test]
fn decode_import_chunk_rejects_impossible_count_without_huge_alloc() {
    let bytes = u32::MAX.to_be_bytes().to_vec();
    let mut budget = DecodeBudget::default();
    match decode_import_chunk(&bytes, &[], &mut budget) {
        Err(LoadError::DecodeError(message)) => assert!(
            message.contains("exceeds limit") || message.contains("impossible"),
            "unexpected error: {message}"
        ),
        other => panic!("expected count-limit DecodeError, got {other:?}"),
    }
}

#[test]
fn decode_atom_chunk_rejects_impossible_count_without_huge_alloc() {
    let bytes = i32::MAX.to_be_bytes().to_vec();
    let mut atom_table = AtomTable::with_common_atoms();
    let mut budget = DecodeBudget::default();
    assert!(matches!(
        decode_atom_chunk(&bytes, &mut atom_table, &mut budget),
        Err(LoadError::DecodeError(_))
    ));
}

#[test]
fn decode_literal_chunk_rejects_decompression_bomb() {
    let inflated = vec![0u8; 1024 * 1024];
    let compressed = zlib(&inflated);

    let mut bytes = Vec::new();
    bytes.extend_from_slice(&16u32.to_be_bytes());
    bytes.extend_from_slice(&compressed);

    let mut atom_table = AtomTable::with_common_atoms();
    let mut budget = DecodeBudget::default();
    match decode_literal_chunk(&bytes, &mut atom_table, &mut budget) {
        Err(LoadError::DecodeError(message)) => assert!(
            message.contains("decompressed to") || message.contains("byte budget"),
            "unexpected error: {message}"
        ),
        other => panic!("expected bounded decompression DecodeError, got {other:?}"),
    }
}

#[test]
fn decode_literal_chunk_rejects_zlib_output_over_byte_budget() {
    let inflated = vec![0u8; 64];
    let compressed = zlib(&inflated);

    let mut bytes = Vec::new();
    bytes.extend_from_slice(&(inflated.len() as u32).to_be_bytes());
    bytes.extend_from_slice(&compressed);

    let mut atom_table = AtomTable::with_common_atoms();
    let mut budget = DecodeBudget::new(16, 16, 8, 16);
    match decode_literal_chunk(&bytes, &mut atom_table, &mut budget) {
        Err(LoadError::DecodeError(message)) => {
            assert!(
                message.contains("byte budget"),
                "unexpected error: {message}"
            );
        }
        other => panic!("expected byte-budget DecodeError, got {other:?}"),
    }
}

#[test]
fn decode_literal_chunk_inflates_a_compressed_table() {
    let mut table = Vec::new();
    table.extend_from_slice(&2u32.to_be_bytes());
    table.extend_from_slice(&3u32.to_be_bytes());
    table.extend_from_slice(&[131, 97, 7]);
    table.extend_from_slice(&2u32.to_be_bytes());
    table.extend_from_slice(&[131, 106]);
    let mut bytes = Vec::new();
    bytes.extend_from_slice(&(table.len() as u32).to_be_bytes());
    bytes.extend_from_slice(&zlib(&table));

    let mut atom_table = AtomTable::with_common_atoms();
    let mut budget = DecodeBudget::default();
    assert_eq!(
        decode_literal_chunk(&bytes, &mut atom_table, &mut budget),
        Ok(vec![Literal::Integer(7), Literal::Nil])
    );
}

#[test]
fn inflated_bytes_must_have_the_declared_size() {
    let mut budget = DecodeBudget::default();
    assert_eq!(
        accept_inflated(Ok(vec![1, 2, 3]), 3, &mut budget),
        Ok(vec![1, 2, 3])
    );
    assert!(message_of(accept_inflated(Ok(vec![1, 2, 3]), 4, &mut budget))
        .contains("decompressed to 3 bytes, expected 4"));
    assert!(message_of(accept_inflated(Err("corrupt".to_string()), 4, &mut budget))
        .contains("corrupt"));
}

#[test]
fn decode_atom_chunk_rejects_excessive_unique_atoms() {
    let mut atom_table = AtomTable::with_common_atoms();
    let mut bytes = Vec::new();
    bytes.extend_from_slice(&2i32.to_be_bytes());
    bytes.push(1);
    bytes.push(b'a');
    bytes.push(1);
    bytes.push(b'b');

    let mut budget = DecodeBudget::new(16, 16, 1024, 1);
    match decode_atom_chunk(&bytes, &mut atom_table, &mut budget) {
        Err(LoadError::DecodeError(message)) => {
            assert!(
                message.contains("atom budget"),
                "unexpected error: {message}"
            );
        }
        other => panic!("expected atom-budget DecodeError, got {other:?}"),
    }
}

#[test]
fn decode_atom_chunk_existing_atoms_do_not_charge_atom_budget() {
    let mut atom_table = AtomTable::with_common_atoms();
    let mut bytes = Vec::new();
    bytes.extend_from_slice(&3i32.to_be_bytes());
    for name in ["ok", "error", "true"] {
        bytes.push(name.len() as u8);
        bytes.extend_from_slice(name.as_bytes());
    }

    let mut budget = DecodeBudget::new(16, 16, 1024, 0);
    let atoms = decode_atom_chunk(&bytes, &mut atom_table, &mut budget).expect("existing atoms");
    assert_eq!(atoms.len(), 3);
}

#[test]
fn atoms_are_interned_in_order_and_resolve_to_their_names() {
    let mut atom_table = AtomTable::with_common_atoms();
    let mut bytes = Vec::new();
    bytes.extend_from_slice(&2i32.to_be_bytes());
    for name in ["left", "ok"] {
        bytes.push(name.len() as u8);
        bytes.extend_from_slice(name.as_bytes());
    }
    let mut budget = DecodeBudget::default();
    let atoms = decode_atom_chunk(&bytes, &mut atom_table, &mut budget).expect("atoms");
    assert_eq!(atom_table.resolve(atoms[0]), Some("left"));
    assert_eq!(atoms[1], Atom::ok());
    assert_eq!(atom_table.intern("left"), atoms[0]);
    assert_eq!(atom_table.lookup("absent"), None);
}

#[test]
fn import_and_export_tables_decode_entry_by_entry() {
    let atoms = [Atom::ok(), Atom::error()];
    let mut bytes = Vec::new();
    for word in [1u32, 2, 1, 3] {
        bytes.extend_from_slice(&word.to_be_bytes());
    }
    let mut budget = DecodeBudget::default();
    assert_eq!(
        decode_import_chunk(&bytes, &atoms, &mut budget),
        Ok(vec![ImportEntry {
            module: Atom::error(),
            function: Atom::ok(),
            arity: 3
        }])
    );
    assert_eq!(
        decode_export_chunk(
            &[0, 0, 0, 1, 0, 0, 0, 1, 0, 0, 0, 2, 0, 0, 0, 9],
            &atoms,
            &mut budget
        ),
        Ok(vec![ExportEntry {
            function: Atom::ok(),
            arity: 2,
            label: 9
        }])
    );
    assert_eq!(
        message_of(decode_import_chunk(
            &[0, 0, 0, 1, 0, 0, 0, 0, 0, 0, 0, 1, 0, 0, 0, 3],
            &atoms,
            &mut budget
        )),
        "atom index 0 is invalid here"
    );
    assert_eq!(
        message_of(decode_import_chunk(
            &[0, 0, 0, 1, 0, 0, 0, 3, 0, 0, 0, 1, 0, 0, 0, 3],
            &atoms,
            &mut budget
        )),
        "atom index 3 out of range"
    );
    assert_eq!(
        message_of(decode_import_chunk(
            &[0, 0, 0, 1, 0, 0, 0, 1, 0, 0, 0, 1, 0, 0, 1, 0],
            &atoms,
            &mut budget
        )),
        "arity 256 out of range"
    );
    assert!(decode_lambda_chunk(&[0, 0, 0, 1], &atoms, &mut budget).is_err());
    assert_eq!(decode_string_chunk(b"text"), b"text".to_vec());
    assert!(decode_line_chunk(&[0, 0], &mut budget).is_err());
}

#[test]
fn opcode_65_decodes_to_get_list() {
    let instructions = decode_instructions(&[65, 0x03, 0x13, 0x23], &[], &[])
        .expect("decode get_list");

    assert_eq!(
        instructions,
        vec![Instruction::GetList {
            source: Operand::X(0),
            head: Operand::X(1),
            tail: Operand::X(2),
        }]
    );
}

#[test]
fn opcode_159_decodes_to_is_tagged_tuple() {
    let atoms = [Atom::ok()];
    let instructions = decode_instructions(&[159, 0x75, 0x03, 0x20, 0x12], &atoms, &[])
        .expect("decode is_tagged_tuple");

    assert_eq!(
        instructions,
        vec![Instruction::IsTaggedTuple {
            fail: Operand::Label(7),
            value: Operand::X(0),
            arity: Operand::Unsigned(2),
            tag: Operand::Atom(Some(Atom::ok())),
        }]
    );
}

#[test]
fn opcodes_173_to_176_decode_to_recv_marker_instructions() {
    let instructions = decode_instructions(
        &[173, 0x03, 174, 0x03, 0x75, 175, 0x13, 176, 0x13],
        &[],
        &[],
    )
    .expect("decode recv_marker opcodes");

    assert_eq!(
        instructions,
        vec![
            Instruction::RecvMarkerReserve {
                dest: Operand::X(0),
            },
            Instruction::RecvMarkerBind {
                marker: Operand::X(0),
                label: Operand::Label(7),
            },
            Instruction::RecvMarkerClear {
                marker: Operand::X(1),
            },
            Instruction::RecvMarkerUse {
                marker: Operand::X(1),
            },
        ]
    );
}

#[test]
fn recv_marker_instruction_opcodes_are_available_for_opcode_max_validation() {
    assert_eq!(
        instruction_opcode(&Instruction::RecvMarkerReserve {
            dest: Operand::X(0)
        }),
        Some(173)
    );
    assert_eq!(
        instruction_opcode(&Instruction::RecvMarkerBind {
            marker: Operand::X(0),
            label: Operand::Label(7),
        }),
        Some(174)
    );
    assert_eq!(
        instruction_opcode(&Instruction::RecvMarkerClear {
            marker: Operand::X(0)
        }),
        Some(175)
    );
    assert_eq!(
        instruction_opcode(&Instruction::RecvMarkerUse {
            marker: Operand::X(0)
        }),
        Some(176)
    );
}

#[test]
fn decoded_instructions_keep_their_opcode_and_name() {
    let instructions = decode_instructions(&[19, 64, 0x13, 0x03], &[], &[]).expect("decode");
    assert_eq!(instructions.len(), 2);
    assert_eq!(instructions[0], Instruction::Return);
    assert_eq!(
        instructions[1],
        Instruction::Move {
            source: Operand::X(1),
            destination: Operand::X(0)
        }
    );
    assert_eq!(instruction_opcode(&instructions[0]), None);
    assert_eq!(
        instruction_opcode(&Instruction::Label { label: 4 }),
        Some(1)
    );
    assert_eq!(opcode_name(&instructions[0]), "Return");
    assert_eq!(opcode_arity(64), Ok(2));
    assert!(opcode_arity(0).is_err());
    assert!(decode_instructions(&[64, 0x13], &[], &[]).is_err());
}

#[test]
fn code_chunk_header_is_read_before_the_code() {
    let mut bytes = Vec::new();
    for word in [16u32, 0, 169, 3, 1] {
        bytes.extend_from_slice(&word.to_be_bytes());
    }
    bytes.push(19);
    bytes.push(3);
    let code = decode_code_chunk(&bytes, &[], &[]).expect("code chunk");
    assert_eq!(code[0], Instruction::Return);
    assert!(decode_code_chunk(&bytes[..10], &[], &[]).is_err());
}

const REPRO: i128 = 100_000_000_000_000_000_000;

fn encode_signed(value: i128, byte_count: usize) -> Vec<u8> {
    assert!((9..=16).contains(&byte_count), "test helper covers 9..=16");
    let mut bytes = vec![0b1111_1001, ((byte_count - 9) as u8) << 4];
    bytes.extend_from_slice(&value.to_be_bytes()[16 - byte_count..]);
    bytes
}

fn decode_one(bytes: &[u8], literals: &[Literal]) -> (Operand, Vec<Literal>) {
    let mut decoder = CompactDecoder::new(bytes, &[], literals);
    let operand = decoder.read_operand().expect("operand decodes");
    assert!(decoder.is_empty(), "all bytes must be consumed");
    (operand, decoder.take_extra_literals())
}

fn magnitude_le(value: i128) -> Vec<u8> {
    let mut bytes = value.unsigned_abs().to_le_bytes().to_vec();
    while bytes.last() == Some(&0) {
        bytes.pop();
    }
    bytes
}

#[test]
fn nine_byte_positive_integer_becomes_big_literal_operand() {
    let (operand, extras) = decode_one(&encode_signed(REPRO, 9), &[]);
    assert_eq!(operand, Operand::Literal(0));
    let mut expected = vec![0_u8];
    expected.extend(magnitude_le(REPRO));
    assert_eq!(extras, vec![Literal::BigInteger(expected)]);
}

#[test]
fn nine_byte_negative_integer_keeps_sign_through_twos_complement() {
    let (operand, extras) = decode_one(&encode_signed(-REPRO, 9), &[]);
    assert_eq!(operand, Operand::Literal(0));
    let mut expected = vec![1_u8];
    expected.extend(magnitude_le(REPRO));
    assert_eq!(extras, vec![Literal::BigInteger(expected)]);
}

#[test]
fn big_literal_indices_start_after_existing_literal_table() {
    let existing = vec![Literal::Nil, Literal::Nil];
    let (operand, extras) = decode_one(&encode_signed(REPRO, 10), &existing);
    assert_eq!(operand, Operand::Literal(2));
    assert_eq!(extras.len(), 1);
}

#[test]
fn non_minimal_wide_encoding_of_small_value_stays_inline() {
    let (operand, extras) = decode_one(&encode_signed(5, 9), &[]);
    assert_eq!(operand, Operand::Integer(5));
    assert!(extras.is_empty());
    let (operand, extras) = decode_one(&encode_signed(-5, 12), &[]);
    assert_eq!(operand, Operand::Integer(-5));
    assert!(extras.is_empty());
}

#[test]
fn word_sized_value_beyond_small_range_becomes_integer_literal() {
    let value = 1_i64 << 62;
    let mut bytes = vec![0b1101_1001];
    bytes.extend_from_slice(&value.to_be_bytes());
    let (operand, extras) = decode_one(&bytes, &[]);
    assert_eq!(operand, Operand::Literal(0));
    assert_eq!(extras, vec![Literal::Integer(value)]);
}

#[test]
fn nine_byte_value_that_fits_i64_demotes_to_integer_literal() {
    let (operand, extras) = decode_one(&encode_signed(i128::from(i64::MIN), 9), &[]);
    assert_eq!(operand, Operand::Literal(0));
    assert_eq!(extras, vec![Literal::Integer(i64::MIN)]);
}

#[test]
fn raw_compact_reads_still_reject_oversized_integers() {
    let bytes = encode_signed(REPRO, 9);
    let mut decoder = CompactDecoder::new(&bytes, &[], &[]);
    let error = decoder.read_raw_compact_i64().expect_err("must reject");
    assert!(matches!(error, LoadError::DecodeError(message) if message.contains("too large")));
}

#[test]
fn oversized_unsigned_operands_are_rejected() {
    let mut bytes = vec![0b1111_1000, 0x00];
    bytes.extend_from_slice(&REPRO.to_be_bytes()[7..]);
    let mut decoder = CompactDecoder::new(&bytes, &[], &[]);
    let error = decoder.read_operand().expect_err("must reject");
    assert!(matches!(error, LoadError::DecodeError(message) if message.contains("too large")));
}

#[test]
fn truncated_big_integer_payload_is_rejected() {
    let mut bytes = encode_signed(REPRO, 9);
    bytes.truncate(bytes.len() - 1);
    let mut decoder = CompactDecoder::new(&bytes, &[], &[]);
    assert!(decoder.read_operand().is_err());
}

#[test]
fn words_are_read_with_and_without_sign() {
    assert_eq!(read_word(&[0xff, 0xfe], true), -2);
    assert_eq!(read_word(&[0xff, 0xfe], false), 0xfffe);
    assert_eq!(read_word(&[0x01, 0x02, 0x03], true), 0x010203);
    assert_eq!(payload_magnitude(&REPRO.to_be_bytes()[7..]), magnitude_le(REPRO));
    assert_eq!(
        payload_magnitude(&(-REPRO).to_be_bytes()[7..]),
        magnitude_le(REPRO)
    );
}

#[test]
fn extra_literals_are_numbered_after_the_table_in_code_order() {
    let mut code = vec![64];
    code.extend_from_slice(&encode_signed(REPRO, 9));
    code.push(0x03);
    code.push(64);
    code.extend_from_slice(&encode_signed(-REPRO, 9));
    code.push(0x13);
    let (instructions, extras) =
        decode_instructions_and_literals(&code, &[], &[Literal::Nil]).expect("decode");
    assert_eq!(
        instructions,
        vec![
            Instruction::Move {
                source: Operand::Literal(1),
                destination: Operand::X(0)
            },
            Instruction::Move {
                source: Operand::Literal(2),
                destination: Operand::X(1)
            },
        ]
    );
    assert_eq!(extras.len(), 2);
}

fn decode(bytes: &[u8]) -> Result<Literal, LoadError> {
    let mut budget = DecodeBudget::default();
    decode_with_budget(bytes, &mut budget)
}

fn decode_with_budget(bytes: &[u8], budget: &mut DecodeBudget) -> Result<Literal, LoadError> {
    let mut atoms = AtomTable::with_common_atoms();
    let mut cursor = BoundedCursor::new(bytes);
    decode_external_term(&mut cursor, &mut atoms, budget)
}

fn nested_single_element_lists(levels: usize) -> Vec<u8> {
    let mut bytes = Vec::new();
    for _ in 0..levels {
        bytes.push(108);
        bytes.extend_from_slice(&1u32.to_be_bytes());
    }
    bytes.push(106);
    bytes.resize(bytes.len() + levels, 106);
    bytes
}

#[test]
fn deeply_nested_list_rejected_not_stack_overflow() {
    let bytes = nested_single_element_lists(MAX_ETF_DEPTH + 16);
    match decode(&bytes) {
        Err(LoadError::DecodeError(message)) => {
            assert!(
                message.contains("nesting exceeds limit"),
                "unexpected error: {message}"
            );
        }
        other => panic!("expected nesting-limit DecodeError, got {other:?}"),
    }
}

#[test]
fn shallow_nesting_still_decodes() {
    let bytes = [108u8, 0, 0, 0, 1, 97, 7, 106];
    assert_eq!(
        decode(&bytes),
        Ok(Literal::List(
            vec![Literal::Integer(7)],
            Box::new(Literal::Nil)
        ))
    );
}

#[test]
fn list_count_impossible_for_payload_rejected_before_alloc() {
    let bytes = [108u8, 0xFF, 0xFF, 0xFF, 0xFF];
    match decode(&bytes) {
        Err(LoadError::DecodeError(message)) => {
            assert!(
                message.contains("exceeds limit") || message.contains("impossible"),
                "unexpected error: {message}"
            );
        }
        other => panic!("expected count-limit DecodeError, got {other:?}"),
    }
}

#[test]
fn tuple_arity_impossible_for_payload_rejected_before_alloc() {
    let bytes = [105u8, 0xFF, 0xFF, 0xFF, 0xFF];
    assert!(matches!(decode(&bytes), Err(LoadError::DecodeError(_))));
}

#[test]
fn map_size_impossible_for_payload_rejected_before_alloc() {
    let bytes = [116u8, 0xFF, 0xFF, 0xFF, 0xFF];
    assert!(matches!(decode(&bytes), Err(LoadError::DecodeError(_))));
}

#[test]
fn wide_flat_list_rejected_by_node_budget() {
    let bytes = [108u8, 0, 0, 0, 3, 97, 1, 97, 2, 97, 3, 106];
    let mut budget = DecodeBudget::new(16, 3, 4096, 16);
    match decode_with_budget(&bytes, &mut budget) {
        Err(LoadError::DecodeError(message)) => {
            assert!(
                message.contains("node budget"),
                "unexpected error: {message}"
            );
        }
        other => panic!("expected node-budget DecodeError, got {other:?}"),
    }
}

#[test]
fn deeply_nested_list_rejected_by_small_custom_budget() {
    let bytes = nested_single_element_lists(3);
    let mut budget = DecodeBudget::new(1, 32, 4096, 16);
    match decode_with_budget(&bytes, &mut budget) {
        Err(LoadError::DecodeError(message)) => {
            assert!(
                message.contains("nesting exceeds limit"),
                "unexpected error: {message}"
            );
        }
        other => panic!("expected nesting DecodeError, got {other:?}"),
    }
}

#[test]
fn terms_of_each_shape_decode() {
    assert_eq!(decode(&[97, 200]), Ok(Literal::Integer(200)));
    assert_eq!(decode(&[98, 0xff, 0xff, 0xff, 0xff]), Ok(Literal::Integer(-1)));
    assert_eq!(decode(&[106]), Ok(Literal::Nil));
    assert_eq!(decode(&[107, 0, 2, b'h', b'i']), Ok(Literal::String(b"hi".to_vec())));
    assert_eq!(
        decode(&[109, 0, 0, 0, 2, 1, 2]),
        Ok(Literal::Binary(vec![1, 2]))
    );
    assert_eq!(decode(&[119, 2, b'o', b'k']), Ok(Literal::Atom(Atom::ok())));
    assert_eq!(
        decode(&[104, 2, 97, 1, 106]),
        Ok(Literal::Tuple(vec![Literal::Integer(1), Literal::Nil]))
    );
    assert_eq!(
        decode(&[116, 0, 0, 0, 1, 97, 1, 97, 2]),
        Ok(Literal::MapPairs(vec![(
            Literal::Integer(1),
            Literal::Integer(2)
        )]))
    );
    assert_eq!(
        decode(&[110, 9, 1, 1, 0, 0, 0, 0, 0, 0, 0, 1]),
        Ok(Literal::BigInteger(vec![1, 1, 0, 0, 0, 0, 0, 0, 0, 1]))
    );
    assert!(decode(&[]).is_err());
    assert!(decode(&[255]).is_err());
}

#[test]
fn new_names_in_terms_charge_the_atom_budget() {
    let mut atoms = AtomTable::with_common_atoms();
    let mut budget = DecodeBudget::new(16, 16, 1024, 0);
    let known = [119u8, 2, b'o', b'k'];
    assert_eq!(
        decode_external_term(&mut BoundedCursor::new(&known), &mut atoms, &mut budget),
        Ok(Literal::Atom(Atom::ok()))
    );
    let fresh = [119u8, 5, b'f', b'r', b'e', b's', b'h'];
    assert!(
        decode_external_term(&mut BoundedCursor::new(&fresh), &mut atoms, &mut budget).is_err()
    );
    assert_eq!(atoms.lookup("fresh"), None);
}

#[test]
fn operand_lists_have_a_longest_length() {
    for (subtag, name) in [(0x17u8, "extended"), (0x37, "allocation")] {
        let mut bytes = vec![subtag, 0x58];
        bytes.extend_from_slice(&(MAX_TABLE_ENTRIES as u32 + 1).to_be_bytes());
        let mut decoder = CompactDecoder::new(&bytes, &[], &[]);
        assert_eq!(
            message_of(decoder.read_operand()),
            format!("{name} list length exceeds limit")
        );
    }
}

#[test]
fn nothing_is_decoded_after_the_end_of_the_code() {
    let ended = decode_instructions(&[19, 3], &[], &[]).expect("code decodes");
    let followed = decode_instructions(&[19, 3, 0xff, 0xff, 7], &[], &[]).expect("code decodes");
    assert_eq!(ended, followed);
}

#[test]
fn inflating_stops_behind_the_declared_size() {
    let table = vec![0u8; 4096];
    let mut bytes = 16u32.to_be_bytes().to_vec();
    bytes.extend_from_slice(&zlib(&table));
    let mut atoms = AtomTable::with_common_atoms();
    let mut budget = DecodeBudget::default();
    let message = message_of(decode_literal_chunk(&bytes, &mut atoms, &mut budget));
    assert!(message.contains("decompressed to 17 bytes, expected 16"), "{message}");
    assert_eq!(budget, DecodeBudget::default());
}

#[test]
fn integers_of_every_width_give_the_same_operand() {
    for value in [-1i128, 0, 5, -300, 70_000, -(1 << 40), 1 << 59] {
        for width in 2..=16usize {
            if width < 16 && (value >> (8 * width - 1)) != 0 && (value >> (8 * width - 1)) != -1 {
                continue;
            }
            let mut bytes = if width <= 8 {
                vec![0b1_1001 + 32 * (width as u8 - 2)]
            } else {
                vec![0b1111_1001, ((width - 9) as u8) << 4]
            };
            bytes.extend_from_slice(&value.to_be_bytes()[16 - width..]);
            assert_eq!(
                decode_one(&bytes, &[]),
                (Operand::Integer(value as i64), Vec::new()),
                "{value} in {width} bytes"
            );
        }
    }
    for width in 9..=16usize {
        let (operand, extras) = decode_one(&encode_signed(i64::MIN as i128, width), &[]);
        assert_eq!(operand, Operand::Literal(0));
        assert_eq!(extras, vec![Literal::Integer(i64::MIN)]);
    }
}

#[test]
fn a_node_is_charged_for_each_term() {
    // A list of a tuple of two integers, with an empty list for its tail.
    let bytes = [108u8, 0, 0, 0, 1, 104, 2, 97, 1, 97, 2, 106];
    let mut budget = DecodeBudget::new(16, 5, 1024, 16);
    assert!(decode_with_budget(&bytes, &mut budget).is_ok());
    assert_eq!(budget.nodes_remaining, 0);
    let mut budget = DecodeBudget::new(16, 4, 1024, 16);
    assert!(message_of(decode_with_budget(&bytes, &mut budget)).contains("node budget"));
}
