//! Decoders for the chunks of a `.beam` container.

pub mod bounded;
pub mod budget;
pub mod chunks;
pub mod code;
pub mod compact;
pub mod etf;
pub mod indices;
pub mod instruction;
pub mod literal;
pub mod names;
pub mod nodes;
pub mod numbers;
pub mod opcode;
pub mod prefix;
pub mod width;
pub mod written;
pub mod written_chunks;
pub mod written_code;
pub mod written_terms;

pub use chunks::{
    decode_atom_chunk, decode_export_chunk, decode_import_chunk, decode_lambda_chunk,
    decode_line_chunk, decode_literal_chunk, decode_string_chunk, ExportEntry, ImportEntry,
    LambdaEntry, LineInfo,
};
pub use code::{decode_code_chunk, decode_instructions};
pub use compact::{Allocation, Operand};
pub use instruction::{BifOp, BinaryOp, ComparisonOp, Instruction, MapOp, TypeTestOp};
pub use literal::Literal;
