//! Decoding of plugin-local record identifiers.
//!
//! A form id is a 32-bit value. Its top byte indexes the list of masters of
//! the plugin that holds the record; the lower 24 bits identify the record
//! within that master. An index past the end of the list names the plugin
//! itself.

use vstd::prelude::*;

verus! {

/// The index into the masters list that a form id carries in its top byte.
pub open spec fn master_index(form_id: u32) -> int {
    form_id as int / 0x100_0000
}

/// The 24-bit identifier of the record within its master.
pub open spec fn local_form_id(form_id: u32) -> int {
    form_id as int % 0x100_0000
}

/// The name of the plugin that owns the record: the indexed master, or the
/// referring plugin where the index is past the end of its masters.
pub open spec fn owning_master(form_id: u32, masters: Seq<Seq<char>>, file_name: Seq<char>) -> Seq<
    char,
> {
    if master_index(form_id) < masters.len() {
        masters[master_index(form_id)]
    } else {
        file_name
    }
}

/// The views of a list of names.
pub open spec fn names_view(names: Seq<&str>) -> Seq<Seq<char>> {
    Seq::new(names.len(), |i: int| names[i]@)
}

/// Why a form id could not be decoded.
#[derive(Debug, Clone, Copy, PartialEq, Eq, Structural)]
pub enum FormIdError {
    /// The local id does not fit the signed 32-bit column that stores it.
    LocalIdOutOfRange,
}

/// Splits a form id into its local id and the name of the master that owns
/// it.
pub fn decode_form_id<'a>(form_id: u32, masters: &'a [&'a str], file_name: &'a str) -> (r: (
    i32,
    &'a str,
))
    ensures
        r.0 == local_form_id(form_id),
        0 <= r.0 < 0x100_0000,
        r.1@ == owning_master(form_id, names_view(masters@), file_name@),
{
    let top: u32 = form_id >> 24;
    let low: u32 = form_id & 0xFF_FFFF;
    assert(top == form_id / 0x100_0000) by (bit_vector)
        requires
            top == form_id >> 24,
    ;
    assert(low == form_id % 0x100_0000) by (bit_vector)
        requires
            low == form_id & 0xFF_FFFF,
    ;
    let master_index: usize = top as usize;
    let local: i32 = low as i32;
    if master_index >= masters.len() {
        return (local, file_name);
    }
    (local, masters[master_index])
}

/// Splits a form id into its local id and the name of the master that owns
/// it. Every form id decodes: the local id is below 2^24, and so always
/// fits the signed 32 bits it is stored in.
pub fn get_local_form_id_and_master<'a>(
    form_id: u32,
    masters: &'a [&'a str],
    file_name: &'a str,
) -> (r: Result<(i32, &'a str), FormIdError>)
    ensures
        r is Ok,
        r->Ok_0.0 == local_form_id(form_id),
        0 <= r->Ok_0.0 < 0x100_0000,
        r->Ok_0.1@ == owning_master(form_id, names_view(masters@), file_name@),
{
    Ok(decode_form_id(form_id, masters, file_name))
}

/// A form id is put together again from its two parts: the master index
/// times 2^24 plus the local id.
pub proof fn lemma_form_id_parts(form_id: u32)
    ensures
        form_id == master_index(form_id) * 0x100_0000 + local_form_id(form_id),
        0 <= master_index(form_id) < 0x100,
        0 <= local_form_id(form_id) < 0x100_0000,
{
}

} // verus!
