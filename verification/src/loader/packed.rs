//! Laws of archives: where what is packed stands in their bytes, and in which order modules
//! come.

use vstd::prelude::*;
use vstd::utf8::encode_utf8;
use super::embed::{
    archive_bytes, bytes_le, entries_bytes, entry_bytes, entry_fits, header_bytes, module_name,
    EntryView,
};

verus! {

/// An archive starts with the text `BEAMR_EMBED`, a zero and the version 1, and then says in four
/// bytes, the lowest first, how many entries follow.
pub proof fn law_archives_start_with_their_name(entries: Seq<EntryView>)
    requires
        entries.len() < 0x1_0000_0000,
    ensures
        ({
            let b = archive_bytes(entries);
            &&& b.len() >= 17
            &&& b.take(12) == seq![
                'B' as u8,
                'E' as u8,
                'A' as u8,
                'M' as u8,
                'R' as u8,
                '_' as u8,
                'E' as u8,
                'M' as u8,
                'B' as u8,
                'E' as u8,
                'D' as u8,
                0u8,
            ]
            &&& b[12] == 1
            &&& b[13] + 0x100 * b[14] + 0x1_0000 * b[15] + 0x100_0000 * b[16] == entries.len()
            &&& b.skip(17) == entries_bytes(entries)
        }),
{
    let b = archive_bytes(entries);
    let head = header_bytes(entries.len());
    assert(head.len() == 17);
    assert(forall|i: int| 0 <= i < 17 ==> b[i] == head[i]);
    assert(b.take(12) =~= seq![
        'B' as u8,
        'E' as u8,
        'A' as u8,
        'M' as u8,
        'R' as u8,
        '_' as u8,
        'E' as u8,
        'M' as u8,
        'B' as u8,
        'E' as u8,
        'D' as u8,
        0u8,
    ]);
    assert(b.skip(17) =~= entries_bytes(entries));
}

/// An entry says how long its name is in two bytes, the lowest first, gives the name, says how
/// long its data are in four bytes, and gives them.
pub proof fn law_entries_say_their_lengths(entry: EntryView)
    requires
        entry_fits(entry),
    ensures
        ({
            let b = entry_bytes(entry);
            let name = encode_utf8(entry.name);
            let at = name.len() as int + 2;
            &&& b.len() == name.len() + entry.compressed.len() + 6
            &&& b[0] + 0x100 * b[1] == name.len()
            &&& b.subrange(2, at) == name
            &&& b[at] + 0x100 * b[at + 1] + 0x1_0000 * b[at + 2] + 0x100_0000 * b[at + 3]
                == entry.compressed.len()
            &&& b.skip(at + 4) == entry.compressed
        }),
{
    let b = entry_bytes(entry);
    let name = encode_utf8(entry.name);
    let at = name.len() as int + 2;
    assert(b.subrange(2, at) =~= name);
    assert(b.skip(at + 4) =~= entry.compressed);
}

/// A file holds a module if its name is that of the module and `.beam`.
pub proof fn law_modules_are_in_beam_files(name: Seq<char>, file: Seq<char>)
    ensures
        name.len() > 0 ==> module_name(name + seq!['.', 'b', 'e', 'a', 'm']) == Some(name),
        module_name(file) matches Some(found) ==> found.len() > 0 && file == found + seq![
            '.',
            'b',
            'e',
            'a',
            'm',
        ],
{
    reveal_strlit(".beam");
    let extension = seq!['.', 'b', 'e', 'a', 'm'];
    assert(".beam"@ =~= extension);
    let whole = name + extension;
    assert(whole.skip(whole.len() - 5) =~= extension);
    assert(whole.take(whole.len() - 5) =~= name);
    if let Some(found) = module_name(file) {
        assert(file =~= found + extension);
    }
}

/// Names are in the order of the first byte in which they differ, and a name comes before
/// every longer one that starts with it.
pub proof fn law_names_are_ordered_by_their_bytes(
    same: Seq<u8>,
    left: u8,
    right: u8,
    after_left: Seq<u8>,
    after_right: Seq<u8>,
)
    requires
        left != right,
    ensures
        bytes_le(same + seq![left] + after_left, same + seq![right] + after_right) <==> left
            < right,
        bytes_le(same, same + after_left),
        after_left.len() > 0 ==> !bytes_le(same + after_left, same),
    decreases same.len(),
{
    let a = same + seq![left] + after_left;
    let b = same + seq![right] + after_right;
    if same.len() > 0 {
        let rest = same.skip(1);
        law_names_are_ordered_by_their_bytes(rest, left, right, after_left, after_right);
        assert(a.skip(1) =~= rest + seq![left] + after_left);
        assert(b.skip(1) =~= rest + seq![right] + after_right);
        assert((same + after_left).skip(1) =~= rest + after_left);
    }
}

} // verus!
