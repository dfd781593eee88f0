//! From a parsed plugin to the rows that record it.
//!
//! Parsing the bytes of a plugin and writing rows are the caller's work.
//! In between stands what this module computes: the hash of the bytes, the
//! row of the plugin, the rows of its worldspaces and cells, the links
//! from the plugin to both, and the place where the bytes are kept.

use vstd::prelude::*;
use crate::form_id::{decode_form_id, local_form_id, names_view, owning_master};
use crate::models::cell::{Cell, UnsavedCell};
use crate::models::file::File;
use crate::models::game_mod::Mod;
use crate::models::plugin::UnsavedPlugin;
use crate::models::plugin_cell::UnsavedPluginCell;
use crate::models::plugin_world::UnsavedPluginWorld;
use crate::models::world::{UnsavedWorld, World};
use crate::radix::{decimal_text, format_decimal};
use crate::extractors::{is_plugin_path_spec, lowered};
use crate::radix::unsigned_bits;
use crate::text::{chars_of, is_suffix, str_eq, string_of};

verus! {

/// The header of a parsed plugin.
#[derive(Debug, Clone, PartialEq)]
pub struct ParsedHeader {
    /// The version, as the bits of the 32-bit floating-point number it is
    /// written as.
    pub version_bits: u32,
    pub author: Option<String>,
    pub description: Option<String>,
    /// The plugins that this one depends on, in the order in which form
    /// ids index them.
    pub masters: Vec<String>,
}

/// A worldspace record of a parsed plugin.
#[derive(Debug, Clone, PartialEq)]
pub struct ParsedWorld {
    pub form_id: u32,
    pub editor_id: String,
}

/// A cell record of a parsed plugin.
#[derive(Debug, Clone, PartialEq)]
pub struct ParsedCell {
    pub form_id: u32,
    pub editor_id: Option<String>,
    pub x: Option<i32>,
    pub y: Option<i32>,
    /// The worldspace that the cell lies in; `None` for an interior cell.
    pub world_form_id: Option<u32>,
    pub is_persistent: bool,
}

/// What parsing a plugin yields.
#[derive(Debug, Clone, PartialEq)]
pub struct ParsedPlugin {
    pub header: ParsedHeader,
    pub worlds: Vec<ParsedWorld>,
    pub cells: Vec<ParsedCell>,
}

/// The file and the mod that a plugin was found in.
#[derive(Debug, Clone, PartialEq)]
pub struct PluginSource {
    /// The name of the file, which the plugin is listed under.
    pub file_display_name: String,
    pub file_id: i32,
    pub mod_id: i32,
}

/// Why the rows of a plugin could not be worked out.
#[derive(Debug, Clone, Copy, PartialEq, Eq, Structural)]
pub enum PlanError {
    /// The cell at this position lies in a worldspace that is not among
    /// the stored worldspaces of the plugin.
    UnknownWorld { cell_index: usize },
}

/// What is to be done with one plugin of an archive.
#[derive(Debug, Clone, PartialEq)]
pub struct PluginPlan {
    pub steps: PluginSteps,
    /// The row of the plugin, where its rows are to be written.
    pub row: Option<UnsavedPlugin>,
    /// The path under which the bytes are to be kept, where they are.
    pub blob_path: Option<String>,
}

/// What is done with the bytes of one plugin of an archive.
#[derive(Debug, Clone, Copy, PartialEq, Eq, Structural)]
pub enum PluginSteps {
    /// Nothing: the plugin is empty.
    Skip,
    /// The bytes are kept on disk and nothing is written to the store: the
    /// plugin could not be parsed.
    SaveBlobOnly,
    /// The rows are written, then the bytes are kept on disk.
    WriteRowsAndSaveBlob,
}

/// The 64-bit SeaHash of a sequence of bytes under the prechosen seed: the
/// result of `seahash::hash`.
pub uninterp spec fn seahash_of(bytes: Seq<u8>) -> u64;

/// Calls `seahash::hash`. Trusted: the result is the named function of the
/// bytes.
#[verifier::external_body]
fn seahash(bytes: &[u8]) -> (h: u64)
    ensures
        h == seahash_of(bytes@),
{
    seahash::hash(bytes)
}

/// The signed number with the same 64 bits as an unsigned one.
pub open spec fn signed_bits(h: u64) -> i64 {
    if h < 0x8000_0000_0000_0000 {
        h as i64
    } else {
        (h - 0x1_0000_0000_0000_0000) as i64
    }
}

/// The hash under which a plugin is stored: the SeaHash of its bytes, read
/// as a signed number.
pub open spec fn plugin_hash_of(bytes: Seq<u8>) -> i64 {
    signed_bits(seahash_of(bytes))
}

/// The views of a sequence of strings.
pub open spec fn strings_view(names: Seq<String>) -> Seq<Seq<char>> {
    Seq::new(names.len(), |i: int| names[i]@)
}

/// The position after the last forward slash of a path, or zero where the
/// path holds none.
pub open spec fn file_name_start(path: Seq<char>) -> int
    decreases path.len(),
{
    if path.len() == 0 {
        0
    } else if path.last() == '/' {
        path.len() as int
    } else {
        file_name_start(path.drop_last())
    }
}

/// The name of the file that a path leads to: what follows its last
/// forward slash, or the whole path where it holds none.
pub open spec fn file_name_of(path: Seq<char>) -> Seq<char> {
    path.subrange(file_name_start(path), path.len() as int)
}

/// The id of the first stored worldspace with the given form id and
/// master.
pub open spec fn world_id_of(worlds: Seq<World>, form_id: int, master: Seq<char>) -> Option<i32>
    decreases worlds.len(),
{
    if worlds.len() == 0 {
        None
    } else if worlds[0].form_id == form_id && worlds[0].master@ == master {
        Some(worlds[0].id)
    } else {
        world_id_of(worlds.drop_first(), form_id, master)
    }
}

/// Whether the worldspace of a parsed cell can be told: the cell is an
/// interior cell, or its worldspace is among the stored ones.
pub open spec fn cell_world_known(
    cell: ParsedCell,
    masters: Seq<Seq<char>>,
    file_name: Seq<char>,
    worlds: Seq<World>,
) -> bool {
    cell.world_form_id matches Some(w) ==> world_id_of(
        worlds,
        local_form_id(w),
        owning_master(w, masters, file_name),
    ) is Some
}

/// Whether `row` is the row to write for a parsed cell.
pub open spec fn is_cell_row(
    row: UnsavedCell,
    cell: ParsedCell,
    masters: Seq<Seq<char>>,
    file_name: Seq<char>,
    worlds: Seq<World>,
) -> bool {
    &&& row.form_id == local_form_id(cell.form_id)
    &&& row.master@ == owning_master(cell.form_id, masters, file_name)
    &&& row.x == cell.x
    &&& row.y == cell.y
    &&& row.is_persistent == cell.is_persistent
    &&& row.world_id == match cell.world_form_id {
        Some(w) => world_id_of(worlds, local_form_id(w), owning_master(w, masters, file_name)),
        None => None,
    }
}

/// Whether `row` is the row to write for a parsed worldspace.
pub open spec fn is_world_row(
    row: UnsavedWorld,
    world: ParsedWorld,
    masters: Seq<Seq<char>>,
    file_name: Seq<char>,
) -> bool {
    row.form_id == local_form_id(world.form_id) && row.master@ == owning_master(
        world.form_id,
        masters,
        file_name,
    )
}

/// The smaller of two lengths.
pub open spec fn shorter(a: nat, b: nat) -> nat {
    if a <= b {
        a
    } else {
        b
    }
}

/// What is done with a plugin of the given size, parsed or not.
pub open spec fn plugin_steps_spec(size: usize, parsed: bool) -> PluginSteps {
    if size == 0 {
        PluginSteps::Skip
    } else if parsed {
        PluginSteps::WriteRowsAndSaveBlob
    } else {
        PluginSteps::SaveBlobOnly
    }
}

/// The path under which the bytes of a plugin are kept: the directory
/// `plugins`, then the game, the upstream ids of mod and file in decimal,
/// and the path of the plugin within its archive.
pub open spec fn blob_path_of(
    game_name: Seq<char>,
    nexus_mod_id: i32,
    nexus_file_id: i32,
    file_path: Seq<char>,
) -> Seq<char> {
    "plugins/"@ + game_name + seq!['/'] + decimal_text(nexus_mod_id as int) + seq!['/']
        + decimal_text(nexus_file_id as int) + seq!['/'] + file_path
}

/// Whether `row` is the row to write for a plugin of the given hash and
/// size, found under `file_path` in the archive of its file.
pub open spec fn is_plugin_row(
    row: UnsavedPlugin,
    source: PluginSource,
    header: ParsedHeader,
    hash: i64,
    size: i64,
    file_path: Seq<char>,
) -> bool {
    &&& row.name == source.file_display_name
    &&& row.hash == hash
    &&& row.file_id == source.file_id
    &&& row.mod_id == source.mod_id
    &&& row.version_bits == header.version_bits
    &&& row.size == size
    &&& row.author == header.author
    &&& row.description == header.description
    &&& row.masters@ == header.masters@
    &&& row.file_name@ == file_name_of(file_path)
    &&& row.file_path@ == file_path
}

/// What is done with a plugin of the given bytes, parsed or not: an empty
/// plugin is passed over; any other is kept, and recorded where it was
/// parsed.
pub open spec fn steps_of(bytes: Seq<u8>, parsed: bool) -> PluginSteps {
    if bytes.len() == 0 {
        PluginSteps::Skip
    } else if parsed {
        PluginSteps::WriteRowsAndSaveBlob
    } else {
        PluginSteps::SaveBlobOnly
    }
}

/// The file and the mod of a plugin, as its rows name them.
pub open spec fn source_of(file: File, game_mod: Mod) -> PluginSource {
    PluginSource { file_display_name: file.name, file_id: file.id, mod_id: game_mod.id }
}

/// Whether `plan` is what is to be done with a plugin of the given bytes,
/// found under `file_path` in the archive of a file of a mod, with
/// `header` the header that parsing gave, if it gave any.
///
/// An empty plugin is passed over: no row is planned and nothing is kept.
/// Any other plugin is kept under its path below `plugins`. Its row is
/// planned where it was parsed, with the hash and the number of its bytes.
pub open spec fn is_plan_of(
    plan: PluginPlan,
    bytes: Seq<u8>,
    header: Option<ParsedHeader>,
    file: File,
    game_mod: Mod,
    file_path: Seq<char>,
    game_name: Seq<char>,
) -> bool {
    &&& plan.steps == steps_of(bytes, header is Some)
    &&& match plan.row {
        Some(row) => plan.steps == PluginSteps::WriteRowsAndSaveBlob && header is Some
            && is_plugin_row(
            row,
            source_of(file, game_mod),
            header->0,
            plugin_hash_of(bytes),
            bytes.len() as i64,
            file_path,
        ),
        None => plan.steps != PluginSteps::WriteRowsAndSaveBlob,
    }
    &&& match plan.blob_path {
        Some(path) => plan.steps != PluginSteps::Skip && path@ == blob_path_of(
            game_name,
            game_mod.nexus_mod_id,
            file.nexus_file_id,
            file_path,
        ),
        None => plan.steps == PluginSteps::Skip,
    }
}

/// Where the name of the file of a path starts lies within the path, and
/// no forward slash follows it.
pub proof fn lemma_file_name_start(path: Seq<char>)
    ensures
        0 <= file_name_start(path) <= path.len(),
        forall|i: int| file_name_start(path) <= i < path.len() ==> path[i] != '/',
        file_name_start(path) > 0 ==> path[file_name_start(path) - 1] == '/',
    decreases path.len(),
{
    if path.len() > 0 && path.last() != '/' {
        lemma_file_name_start(path.drop_last());
        assert forall|i: int| file_name_start(path) <= i < path.len() implies path[i] != '/' by {
            if i < path.len() - 1 {
                assert(path.drop_last()[i] == path[i]);
            }
        }
        if file_name_start(path) > 0 {
            assert(path.drop_last()[file_name_start(path) - 1] == path[file_name_start(path) - 1]);
        }
    }
}

/// A suffix without a forward slash that ends a path ends the name of its
/// file too.
pub proof fn lemma_suffix_of_file_name(path: Seq<char>, suffix: Seq<char>)
    requires
        is_suffix(suffix, path),
        forall|i: int| 0 <= i < suffix.len() ==> suffix[i] != '/',
    ensures
        is_suffix(suffix, file_name_of(path)),
{
    lemma_file_name_start(path);
    let start = file_name_start(path);
    let name = file_name_of(path);
    let tail = path.subrange(path.len() - suffix.len(), path.len() as int);
    if start > path.len() - suffix.len() {
        assert(tail[start - 1 - (path.len() - suffix.len())] == path[start - 1]);
        assert(suffix[start - 1 - (path.len() - suffix.len())] == '/');
    }
    assert(name.subrange(name.len() - suffix.len(), name.len() as int) =~= tail);
}

/// Lower case moves no forward slash: the name of the file starts at the
/// same place in a path and in its lower-case form.
proof fn lemma_lowered_start(path: Seq<char>)
    ensures
        file_name_start(lowered(path)) == file_name_start(path),
    decreases path.len(),
{
    if path.len() > 0 {
        lemma_lowered_start(path.drop_last());
        assert(lowered(path).drop_last() =~= lowered(path.drop_last()));
        assert(lowered(path).last() == crate::text::ascii_lower(path.last()));
    }
}

/// The path of a plugin leads to a file with the name of a plugin: the
/// name is not empty, and is itself the path of a plugin.
pub proof fn lemma_plugin_path_names_plugin(path: Seq<char>)
    requires
        is_plugin_path_spec(path),
    ensures
        is_plugin_path_spec(file_name_of(path)),
        file_name_of(path).len() >= 4,
{
    reveal_strlit(".esp");
    reveal_strlit(".esm");
    reveal_strlit(".esl");
    lemma_lowered_start(path);
    lemma_file_name_start(path);
    assert(lowered(file_name_of(path)) =~= file_name_of(lowered(path)));
    if is_suffix(".esp"@, lowered(path)) {
        lemma_suffix_of_file_name(lowered(path), ".esp"@);
    } else if is_suffix(".esm"@, lowered(path)) {
        lemma_suffix_of_file_name(lowered(path), ".esm"@);
    } else {
        lemma_suffix_of_file_name(lowered(path), ".esl"@);
    }
}

/// A worldspace that is found is stored, and one that is not found is
/// not: the search answers with the id of a stored worldspace of the form
/// id and master asked for, or with none where there is none.
pub proof fn lemma_world_id_of(worlds: Seq<World>, form_id: int, master: Seq<char>)
    ensures
        match world_id_of(worlds, form_id, master) {
            Some(id) => exists|k: int|
                0 <= k < worlds.len() && (#[trigger] worlds[k]).form_id == form_id
                    && worlds[k].master@ == master && worlds[k].id == id,
            None => forall|k: int|
                0 <= k < worlds.len() ==> !((#[trigger] worlds[k]).form_id == form_id
                    && worlds[k].master@ == master),
        },
    decreases worlds.len(),
{
    if worlds.len() > 0 {
        if worlds[0].form_id == form_id && worlds[0].master@ == master {
        } else {
            let rest = worlds.drop_first();
            lemma_world_id_of(rest, form_id, master);
            match world_id_of(rest, form_id, master) {
                Some(id) => {
                    let k = choose|k: int|
                        0 <= k < rest.len() && (#[trigger] rest[k]).form_id == form_id
                            && rest[k].master@ == master && rest[k].id == id;
                    assert(worlds[k + 1] == rest[k]);
                },
                None => {
                    assert forall|k: int| 0 <= k < worlds.len() implies !((
                    #[trigger] worlds[k]).form_id == form_id && worlds[k].master@ == master) by {
                        if k > 0 {
                            assert(worlds[k] == rest[k - 1]);
                        }
                    }
                },
            }
        }
    }
}

/// Same bytes, same hash: two plugins that agree byte for byte are stored
/// under one hash.
pub proof fn lemma_same_bytes_same_hash(a: Seq<u8>, b: Seq<u8>)
    requires
        a =~= b,
    ensures
        plugin_hash_of(a) == plugin_hash_of(b),
{
}

/// Reading a hash as a signed number loses nothing: different hashes stay
/// different, and the text of the stored hash is the text of the hash.
pub proof fn lemma_signed_bits_injective(a: u64, b: u64)
    ensures
        signed_bits(a) == signed_bits(b) ==> a == b,
        unsigned_bits(signed_bits(a)) == a,
{
}

/// An interior cell is written without a worldspace and an exterior cell
/// with one: the row of a cell refers to a worldspace exactly where the
/// cell lies in one.
pub proof fn lemma_cell_row_kind(
    row: UnsavedCell,
    cell: ParsedCell,
    masters: Seq<Seq<char>>,
    file_name: Seq<char>,
    worlds: Seq<World>,
)
    requires
        is_cell_row(row, cell, masters, file_name, worlds),
        cell_world_known(cell, masters, file_name, worlds),
    ensures
        row.world_id is None <==> cell.world_form_id is None,
        row.world_id is None <==> row.key().2 is None,
{
}

/// Reads the 64 bits of a hash as a signed number, which is how the store
/// keeps it.
pub fn hash_as_signed(unsigned: u64) -> (signed: i64)
    ensures
        signed == signed_bits(unsigned),
{
    let signed: i64 = unsigned as i64;
    assert(signed == if unsigned < 0x8000_0000_0000_0000u64 {
        unsigned as int
    } else {
        unsigned - 0x1_0000_0000_0000_0000
    }) by (bit_vector)
        requires
            signed == unsigned as i64,
    ;
    signed
}

/// The hash under which the bytes of a plugin are stored.
pub fn plugin_hash(bytes: &[u8]) -> (h: i64)
    ensures
        h == plugin_hash_of(bytes@),
{
    hash_as_signed(seahash(bytes))
}

/// Decides what is done with the bytes of a plugin: an empty plugin is
/// passed over; any other is kept on disk, and recorded in the store where
/// it could be parsed.
pub fn plugin_steps(size: usize, parsed: bool) -> (r: PluginSteps)
    ensures
        r == plugin_steps_spec(size, parsed),
{
    if size == 0 {
        PluginSteps::Skip
    } else if parsed {
        PluginSteps::WriteRowsAndSaveBlob
    } else {
        PluginSteps::SaveBlobOnly
    }
}

/// Plans what is done with one plugin of an archive, from its bytes and
/// from the header that parsing gave, if it gave any: whether its rows are
/// written, with which row for the plugin itself, and where its bytes are
/// kept. The hash of the row is the hash of the bytes, its size their
/// number.
pub fn plan_plugin(
    plugin_buf: &[u8],
    header: Option<&ParsedHeader>,
    db_file: &File,
    db_mod: &Mod,
    file_path: &str,
    game_name: &str,
) -> (r: PluginPlan)
    requires
        plugin_buf@.len() <= i64::MAX,
    ensures
        is_plan_of(
            r,
            plugin_buf@,
            match header {
                Some(h) => Some(*h),
                None => None,
            },
            *db_file,
            *db_mod,
            file_path@,
            game_name@,
        ),
{
    let steps = plugin_steps(plugin_buf.len(), header.is_some());
    let row = match (steps, header) {
        (PluginSteps::WriteRowsAndSaveBlob, Some(h)) => {
            let source = PluginSource {
                file_display_name: db_file.name.clone(),
                file_id: db_file.id,
                mod_id: db_mod.id,
            };
            Some(
                unsaved_plugin(
                    &source,
                    h,
                    plugin_hash(plugin_buf),
                    plugin_buf.len() as i64,
                    file_path,
                ),
            )
        },
        _ => None,
    };
    let blob_path = match steps {
        PluginSteps::Skip => None,
        _ => Some(
            plugin_blob_path(game_name, db_mod.nexus_mod_id, db_file.nexus_file_id, file_path),
        ),
    };
    PluginPlan { steps, row, blob_path }
}

/// The name of the file that a path within an archive leads to.
pub fn file_name(path: &str) -> (r: String)
    ensures
        r@ == file_name_of(path@),
{
    let chars = chars_of(path);
    let mut start: usize = 0;
    let mut i: usize = 0;
    while i < chars.len()
        invariant
            i <= chars.len(),
            start == file_name_start(chars@.subrange(0, i as int)),
            start <= i,
        decreases chars.len() - i,
    {
        let ghost longer = chars@.subrange(0, i + 1);
        assert(longer.drop_last() =~= chars@.subrange(0, i as int));
        assert(longer.last() == chars@[i as int]);
        if chars[i] == '/' {
            start = i + 1;
        }
        i += 1;
    }
    assert(chars@.subrange(0, chars.len() as int) =~= chars@);
    let mut name: Vec<char> = Vec::new();
    let mut k: usize = start;
    while k < chars.len()
        invariant
            start <= k <= chars.len(),
            name@ == chars@.subrange(start as int, k as int),
        decreases chars.len() - k,
    {
        name.push(chars[k]);
        assert(name@ =~= chars@.subrange(start as int, k + 1));
        k += 1;
    }
    string_of(&name)
}

/// Borrows every name of a list.
fn borrowed<'a>(names: &'a Vec<String>) -> (r: Vec<&'a str>)
    ensures
        names_view(r@) == strings_view(names@),
{
    let mut out: Vec<&'a str> = Vec::new();
    let mut i: usize = 0;
    while i < names.len()
        invariant
            i <= names.len(),
            out@.len() == i,
            forall|k: int| 0 <= k < i ==> (#[trigger] out@[k])@ == names@[k]@,
        decreases names.len() - i,
    {
        out.push(names[i].as_str());
        i += 1;
    }
    assert(names_view(out@) =~= strings_view(names@));
    out
}

/// A copy of a list of names.
fn copied(names: &Vec<String>) -> (r: Vec<String>)
    ensures
        r@ == names@,
{
    let mut out: Vec<String> = Vec::new();
    let mut i: usize = 0;
    while i < names.len()
        invariant
            i <= names.len(),
            out@ == names@.subrange(0, i as int),
        decreases names.len() - i,
    {
        out.push(names[i].clone());
        i += 1;
    }
    assert(names@.subrange(0, names.len() as int) =~= names@);
    out
}

/// The row to write for a plugin of `size` bytes with the given hash,
/// found under `file_path` in an archive.
pub fn unsaved_plugin(
    source: &PluginSource,
    header: &ParsedHeader,
    hash: i64,
    size: i64,
    file_path: &str,
) -> (r: UnsavedPlugin)
    ensures
        r.name == source.file_display_name,
        r.hash == hash,
        r.file_id == source.file_id,
        r.mod_id == source.mod_id,
        r.version_bits == header.version_bits,
        r.size == size,
        r.author == header.author,
        r.description == header.description,
        r.masters@ == header.masters@,
        r.file_name@ == file_name_of(file_path@),
        r.file_path@ == file_path@,
{
    UnsavedPlugin {
        name: source.file_display_name.clone(),
        hash,
        file_id: source.file_id,
        mod_id: source.mod_id,
        version_bits: header.version_bits,
        size,
        author: header.author.clone(),
        description: header.description.clone(),
        masters: copied(&header.masters),
        file_name: file_name(file_path),
        file_path: file_path.to_owned(),
    }
}

/// The rows to write for the worldspaces of a plugin, one for each and in
/// their order: the local form id of each, under the master that owns it.
pub fn unsaved_worlds(worlds: &Vec<ParsedWorld>, masters: &Vec<String>, file_name: &str) -> (r:
    Vec<UnsavedWorld>)
    ensures
        r@.len() == worlds@.len(),
        forall|i: int|
            0 <= i < worlds@.len() ==> is_world_row(
                #[trigger] r@[i],
                worlds@[i],
                strings_view(masters@),
                file_name@,
            ),
{
    let names = borrowed(masters);
    let mut rows: Vec<UnsavedWorld> = Vec::new();
    let mut i: usize = 0;
    while i < worlds.len()
        invariant
            i <= worlds.len(),
            rows@.len() == i,
            names_view(names@) == strings_view(masters@),
            forall|k: int|
                0 <= k < i ==> is_world_row(
                    #[trigger] rows@[k],
                    worlds@[k],
                    strings_view(masters@),
                    file_name@,
                ),
        decreases worlds.len() - i,
    {
        let (form_id, master) = decode_form_id(worlds[i].form_id, names.as_slice(), file_name);
        rows.push(UnsavedWorld { form_id, master: master.to_owned() });
        i += 1;
    }
    rows
}

/// The links to write from a plugin to its worldspaces: the stored
/// worldspaces and the parsed ones are paired off in order, and each pair
/// gives a link that carries the editor id of the parsed worldspace.
pub fn unsaved_plugin_worlds(db_worlds: &Vec<World>, worlds: &Vec<ParsedWorld>, plugin_id: i32)
    -> (r: Vec<UnsavedPluginWorld>)
    ensures
        r@.len() == shorter(db_worlds@.len(), worlds@.len()),
        forall|i: int|
            0 <= i < r@.len() ==> (#[trigger] r@[i]) == (UnsavedPluginWorld {
                plugin_id,
                world_id: db_worlds@[i].id,
                editor_id: worlds@[i].editor_id,
            }),
{
    let mut rows: Vec<UnsavedPluginWorld> = Vec::new();
    let mut i: usize = 0;
    while i < db_worlds.len() && i < worlds.len()
        invariant
            i <= db_worlds.len(),
            i <= worlds.len(),
            rows@.len() == i,
            forall|k: int|
                0 <= k < i ==> (#[trigger] rows@[k]) == (UnsavedPluginWorld {
                    plugin_id,
                    world_id: db_worlds@[k].id,
                    editor_id: worlds@[k].editor_id,
                }),
        decreases worlds.len() - i,
    {
        rows.push(
            UnsavedPluginWorld {
                plugin_id,
                world_id: db_worlds[i].id,
                editor_id: worlds[i].editor_id.clone(),
            },
        );
        i += 1;
    }
    rows
}

/// The id of the stored worldspace with the given form id and master.
pub fn find_world_id(db_worlds: &Vec<World>, form_id: i32, master: &str) -> (r: Option<i32>)
    ensures
        r == world_id_of(db_worlds@, form_id as int, master@),
{
    let mut i: usize = 0;
    assert(db_worlds@.subrange(0, db_worlds.len() as int) =~= db_worlds@);
    while i < db_worlds.len()
        invariant
            i <= db_worlds.len(),
            world_id_of(db_worlds@, form_id as int, master@) == world_id_of(
                db_worlds@.subrange(i as int, db_worlds.len() as int),
                form_id as int,
                master@,
            ),
        decreases db_worlds.len() - i,
    {
        let ghost rest = db_worlds@.subrange(i as int, db_worlds.len() as int);
        assert(rest[0] == db_worlds@[i as int]);
        assert(rest.drop_first() =~= db_worlds@.subrange(i + 1, db_worlds.len() as int));
        if db_worlds[i].form_id == form_id && str_eq(db_worlds[i].master.as_str(), master) {
            return Some(db_worlds[i].id);
        }
        i += 1;
    }
    None
}

/// The rows to write for the cells of a plugin, one for each and in their
/// order.
///
/// Each row carries the local form id of its cell under the master that
/// owns it. A cell that lies in a worldspace refers to the stored
/// worldspace with the form id and master that the cell names; an interior
/// cell refers to none. Where a cell names a worldspace that is not among
/// the stored ones, the first such cell is reported and no rows are given.
pub fn unsaved_cells(
    cells: &Vec<ParsedCell>,
    masters: &Vec<String>,
    file_name: &str,
    db_worlds: &Vec<World>,
) -> (r: Result<Vec<UnsavedCell>, PlanError>)
    ensures
        match r {
            Ok(rows) => rows@.len() == cells@.len() && forall|i: int|
                0 <= i < cells@.len() ==> cell_world_known(
                    #[trigger] cells@[i],
                    strings_view(masters@),
                    file_name@,
                    db_worlds@,
                ) && is_cell_row(
                    rows@[i],
                    cells@[i],
                    strings_view(masters@),
                    file_name@,
                    db_worlds@,
                ),
            Err(PlanError::UnknownWorld { cell_index }) => cell_index < cells@.len()
                && !cell_world_known(
                cells@[cell_index as int],
                strings_view(masters@),
                file_name@,
                db_worlds@,
            ) && forall|j: int|
                0 <= j < cell_index ==> cell_world_known(
                    #[trigger] cells@[j],
                    strings_view(masters@),
                    file_name@,
                    db_worlds@,
                ),
        },
{
    let names = borrowed(masters);
    let mut rows: Vec<UnsavedCell> = Vec::new();
    let mut i: usize = 0;
    while i < cells.len()
        invariant
            i <= cells.len(),
            rows@.len() == i,
            names_view(names@) == strings_view(masters@),
            forall|k: int|
                0 <= k < i ==> cell_world_known(
                    #[trigger] cells@[k],
                    strings_view(masters@),
                    file_name@,
                    db_worlds@,
                ),
            forall|k: int|
                0 <= k < i ==> is_cell_row(
                    #[trigger] rows@[k],
                    cells@[k],
                    strings_view(masters@),
                    file_name@,
                    db_worlds@,
                ),
        decreases cells.len() - i,
    {
        let cell = &cells[i];
        let world_id: Option<i32> = match cell.world_form_id {
            None => None,
            Some(w) => {
                let (form_id, master) = decode_form_id(w, names.as_slice(), file_name);
                match find_world_id(db_worlds, form_id, master) {
                    Some(id) => Some(id),
                    None => {
                        return Err(PlanError::UnknownWorld { cell_index: i });
                    },
                }
            },
        };
        let (form_id, master) = decode_form_id(cell.form_id, names.as_slice(), file_name);
        rows.push(
            UnsavedCell {
                form_id,
                master: master.to_owned(),
                x: cell.x,
                y: cell.y,
                world_id,
                is_persistent: cell.is_persistent,
            },
        );
        i += 1;
    }
    Ok(rows)
}

/// The links to write from a plugin to its cells: the stored cells and the
/// parsed ones are paired off in order, and each pair gives a link that
/// carries the editor id of the parsed cell, with the file and the mod of
/// the plugin beside it.
pub fn unsaved_plugin_cells(
    db_cells: &Vec<Cell>,
    cells: &Vec<ParsedCell>,
    plugin_id: i32,
    file_id: i32,
    mod_id: i32,
) -> (r: Vec<UnsavedPluginCell>)
    ensures
        r@.len() == shorter(db_cells@.len(), cells@.len()),
        forall|i: int|
            0 <= i < r@.len() ==> (#[trigger] r@[i]) == (UnsavedPluginCell {
                plugin_id,
                cell_id: db_cells@[i].id,
                file_id,
                mod_id,
                editor_id: cells@[i].editor_id,
            }),
{
    let mut rows: Vec<UnsavedPluginCell> = Vec::new();
    let mut i: usize = 0;
    while i < db_cells.len() && i < cells.len()
        invariant
            i <= db_cells.len(),
            i <= cells.len(),
            rows@.len() == i,
            forall|k: int|
                0 <= k < i ==> (#[trigger] rows@[k]) == (UnsavedPluginCell {
                    plugin_id,
                    cell_id: db_cells@[k].id,
                    file_id,
                    mod_id,
                    editor_id: cells@[k].editor_id,
                }),
        decreases cells.len() - i,
    {
        rows.push(
            UnsavedPluginCell {
                plugin_id,
                cell_id: db_cells[i].id,
                file_id,
                mod_id,
                editor_id: cells[i].editor_id.clone(),
            },
        );
        i += 1;
    }
    rows
}

/// The path, relative to the working directory, under which the bytes of
/// a plugin are kept.
pub fn plugin_blob_path(game_name: &str, nexus_mod_id: i32, nexus_file_id: i32, file_path: &str)
    -> (r: String)
    ensures
        r@ == blob_path_of(game_name@, nexus_mod_id, nexus_file_id, file_path@),
{
    let mut path = "plugins/".to_owned();
    path.append(game_name);
    path.push('/');
    path.append(format_decimal(nexus_mod_id as i64).as_str());
    path.push('/');
    path.append(format_decimal(nexus_file_id as i64).as_str());
    path.push('/');
    path.append(file_path);
    path
}

/// Two runs of stored worldspaces that agree, place by place, in id and
/// key tell the worldspace of a cell alike.
pub proof fn lemma_world_id_by_rows(a: Seq<World>, b: Seq<World>, form_id: int, master: Seq<char>)
    requires
        a.len() == b.len(),
        forall|k: int| 0 <= k < a.len() ==> (#[trigger] a[k]).id == b[k].id && a[k].key() == b[k].key(),
    ensures
        world_id_of(a, form_id, master) == world_id_of(b, form_id, master),
    decreases a.len(),
{
    if a.len() > 0 {
        assert(a[0].id == b[0].id && a[0].key() == b[0].key());
        let rest_a = a.drop_first();
        let rest_b = b.drop_first();
        assert forall|k: int| 0 <= k < rest_a.len() implies (#[trigger] rest_a[k]).id == rest_b[k].id
            && rest_a[k].key() == rest_b[k].key() by {
            assert(a[k + 1].id == b[k + 1].id && a[k + 1].key() == b[k + 1].key());
        }
        lemma_world_id_by_rows(rest_a, rest_b, form_id, master);
    }
}

} // verus!
