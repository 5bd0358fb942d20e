//! Compiling functions to native code.

pub mod allocation;
pub mod aot;
pub mod aot_format;
pub mod aot_layout;
pub mod arithmetic;
pub mod binary;
pub mod closure;
pub mod common;
pub mod compile_job;
pub mod compiler;
pub mod control;
pub mod dispatch_call;
pub mod dispatch_core;
pub mod dispatch_data;
pub mod error;
pub mod exceptions;
pub mod float;
pub mod float_registers;
pub mod guards;
pub mod helper;
pub mod ir;
pub mod little_endian;
pub mod map;
pub mod meaning;
pub mod meaning_binary;
pub mod meaning_call;
pub mod meaning_closure;
pub mod meaning_core;
pub mod meaning_data;
pub mod meaning_ends;
pub mod meaning_function;
pub mod meaning_guards;
pub mod meaning_known;
pub mod meaning_map;
pub mod meaning_map_code;
pub mod meaning_message;
pub mod meaning_move;
pub mod meaning_operands;
pub mod meaning_program;
pub mod meaning_receive;
pub mod meaning_run;
pub mod meaning_select;
pub mod meaning_standing;
pub mod meaning_typed;
pub mod message;
pub mod profiler;
pub mod register;
pub mod runtime;
pub mod runtime_binary_build;
pub mod runtime_binary_match;
pub mod runtime_call;
pub mod runtime_map;
pub mod runtime_message;
pub mod safepoint;
pub mod type_info;
pub mod typed;
pub mod typed_state;
pub mod types;
