//! How many operands each instruction has.

use vstd::prelude::*;
use vstd::string::*;
use crate::error::{decode_fault, outcome, LoadError, LoadFault};
use crate::text::{decimal_u64, nat_text};

verus! {

/// The fault of an opcode that has no instruction.
pub open spec fn unsupported_opcode(opcode: u8) -> LoadFault {
    decode_fault("unsupported opcode "@ + nat_text(opcode as nat))
}

/// The number of operands of the instruction with this opcode, if there is one.
pub open spec fn operand_count(opcode: u8) -> Option<nat> {
    if opcode == 19 || opcode == 20 || opcode == 21 || opcode == 22 || opcode == 73 || opcode
        == 133 || opcode == 149 || opcode == 160 || opcode == 161 || opcode == 179 {
        Some(0)
    } else if opcode == 1 || opcode == 18 || opcode == 24 || opcode == 25 || opcode == 61 || opcode
        == 63 || opcode == 72 || opcode == 74 || opcode == 75 || opcode == 103 || (105 <= opcode
        <= 107) || opcode == 112 || opcode == 153 || opcode == 172 || opcode == 173 || opcode == 175
        || opcode == 176 || opcode == 180 {
        Some(1)
    } else if opcode == 4 || opcode == 6 || opcode == 7 || opcode == 9 || opcode == 12 || opcode
        == 14 || opcode == 16 || opcode == 23 || opcode == 26 || (45 <= opcode <= 53) || (55
        <= opcode <= 57) || opcode == 62 || opcode == 64 || opcode == 77 || opcode == 78 || opcode
        == 96 || opcode == 97 || opcode == 104 || opcode == 108 || opcode == 113 || opcode == 114
        || opcode == 129 || opcode == 136 || opcode == 156 || (162 <= opcode <= 164) || opcode
        == 168 || opcode == 169 || opcode == 174 || opcode == 183 {
        Some(2)
    } else if opcode == 2 || opcode == 5 || opcode == 8 || opcode == 13 || (39 <= opcode <= 44)
        || (58 <= opcode <= 60) || (65 <= opcode <= 67) || opcode == 69 || opcode == 102 || opcode
        == 115 || opcode == 121 || opcode == 131 || opcode == 157 || opcode == 158 || opcode == 165
        || opcode == 167 || opcode == 171 || opcode == 178 || opcode == 182 {
        Some(3)
    } else if opcode == 10 || (98 <= opcode <= 101) || opcode == 132 || opcode == 139 || opcode
        == 141 || opcode == 143 || opcode == 159 || opcode == 166 || opcode == 170 || opcode
        == 184 {
        Some(4)
    } else if opcode == 11 || opcode == 120 || opcode == 124 || opcode == 138 || opcode == 140
        || opcode == 142 || opcode == 154 || opcode == 155 || opcode == 181 {
        Some(5)
    } else if opcode == 125 || opcode == 177 {
        Some(6)
    } else if (117 <= opcode <= 119) || opcode == 152 {
        Some(7)
    } else {
        None
    }
}

/// The number of operands of the instruction with this opcode.
pub fn opcode_arity(opcode: u8) -> (r: Result<u32, LoadError>)
    ensures
        outcome(r) == (match operand_count(opcode) {
            Some(n) => Ok(n as u32),
            None => Err(unsupported_opcode(opcode)),
        }),
{
    match opcode {
        19 | 20 | 21 | 22 | 73 | 133 | 149 | 160 | 161 | 179 => Ok(0),
        1 | 18 | 24 | 25 | 61 | 63 | 72 | 74 | 75 | 103 | 105 | 106 | 107 | 112 | 153 | 172 | 173
        | 175 | 176 | 180 => Ok(1),
        4 | 6 | 7 | 9 | 12 | 14 | 16 | 23 | 26 | 45 | 46 | 47 | 48 | 49 | 50 | 51 | 52 | 53 | 55
        | 56 | 57 | 62 | 64 | 77 | 78 | 96 | 97 | 104 | 108 | 113 | 114 | 129 | 136 | 156 | 162
        | 163 | 164 | 168 | 169 | 174 | 183 => Ok(2),
        2 | 5 | 8 | 13 | 39 | 40 | 41 | 42 | 43 | 44 | 58 | 59 | 60 | 65 | 66 | 67 | 69 | 102
        | 115 | 121 | 131 | 157 | 158 | 165 | 167 | 171 | 178 | 182 => Ok(3),
        10 | 98 | 99 | 100 | 101 | 132 | 139 | 141 | 143 | 159 | 166 | 170 | 184 => Ok(4),
        11 | 120 | 124 | 138 | 140 | 142 | 154 | 155 | 181 => Ok(5),
        125 | 177 => Ok(6),
        117 | 118 | 119 | 152 => Ok(7),
        _ => {
            let mut text = "unsupported opcode ".to_owned();
            text.append(decimal_u64(opcode as u64).as_str());
            Err(LoadError::DecodeError(text))
        },
    }
}

} // verus!
