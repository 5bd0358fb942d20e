//! The `.beam` file loader.

pub mod decode;
pub mod embed;
pub mod load;
pub mod loaded;
pub mod packed;
pub mod parser;
pub mod report;
pub mod validate;
pub mod validated;

pub use decode::chunks::{ExportEntry, ImportEntry, LambdaEntry, LineInfo};
pub use decode::code::decode_instructions;
pub use decode::instruction::Instruction;
pub use decode::literal::Literal;
pub use embed::{
    archive_pack, embedded_archive, embedded_module_bytes, embedded_module_names,
    load_embedded_module, load_embedded_module_with_policy, EmbedError, EmbeddedArchive,
};
pub use load::{
    lambda_unique_id, load_beam_chunks, load_module, load_module_with_origin,
    load_module_with_origin_and_policy, load_module_with_policy, prepare_module,
    prepare_module_with_origin, prepare_module_with_origin_and_policy, prepare_module_with_policy,
    resolve_imports, ParsedModule,
};
pub use parser::{parse_beam_chunks, FourCC};
pub use report::{
    DeniedImportEntry, UnresolvedImport, UnresolvedImportEntry, UnresolvedImportReport,
};
pub use validate::validate_module;
