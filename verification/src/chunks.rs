use vstd::prelude::*;
use std::io::{Read, Write};
use crate::coordinates::Coordinate;
use crate::text::{
    chars_equal,
    int_decimal, i32_to_text, push_decimal, chars_of, string_from_chars, split_chars, parse_i32,
    split_on, parse_i32_value, views_of, lemma_parse_int_decimal, lemma_int_decimal_chars,
    lemma_split_without_sep, lemma_split_append,
};

verus! {

broadcast use vstd::string::group_string_axioms;

/// The value of one block state, as plain values.
pub enum StateValue {
    Bool(bool),
    Integer(i32),
    Text(Seq<char>),
}

/// The value of one block state property (such as `facing` or `lit`).
#[derive(Debug, Clone)]
pub enum BlockStateData {
    Bool(bool),
    Integer(i32),
    String(String),
}

impl View for BlockStateData {
    type V = StateValue;

    open spec fn view(&self) -> StateValue {
        match self {
            BlockStateData::Bool(b) => StateValue::Bool(*b),
            BlockStateData::Integer(i) => StateValue::Integer(*i),
            BlockStateData::String(s) => StateValue::Text(s@),
        }
    }
}

/// The text of a state value: `true`/`false`, the decimal number, or
/// the string itself.
pub open spec fn state_text(v: StateValue) -> Seq<char> {
    match v {
        StateValue::Bool(b) => if b {
            seq!['t', 'r', 'u', 'e']
        } else {
            seq!['f', 'a', 'l', 's', 'e']
        },
        StateValue::Integer(i) => int_decimal(i as int),
        StateValue::Text(s) => s,
    }
}

impl BlockStateData {
    /// The text of the value, as it is handed to the mesher.
    pub fn to_string(&self) -> (s: String)
        ensures
            s@ == state_text(self@),
    {
        match self {
            BlockStateData::Bool(b) => {
                if *b {
                    let mut v: Vec<char> = Vec::new();
                    v.push('t');
                    v.push('r');
                    v.push('u');
                    v.push('e');
                    string_from_chars(&v)
                } else {
                    let mut v: Vec<char> = Vec::new();
                    v.push('f');
                    v.push('a');
                    v.push('l');
                    v.push('s');
                    v.push('e');
                    string_from_chars(&v)
                }
            },
            BlockStateData::Integer(i) => i32_to_text(*i),
            BlockStateData::String(s) => s.clone(),
        }
    }

    /// A copy with the same value.
    pub fn duplicate(&self) -> (r: Self)
        ensures
            r@ == self@,
    {
        match self {
            BlockStateData::Bool(b) => BlockStateData::Bool(*b),
            BlockStateData::Integer(i) => BlockStateData::Integer(*i),
            BlockStateData::String(s) => BlockStateData::String(s.clone()),
        }
    }
}

/// A block as plain values: its name and its state properties in order.
pub struct BlockView {
    pub name: Seq<char>,
    pub states: Seq<(Seq<char>, StateValue)>,
}

/// One block: its namespaced name (such as `minecraft:stone`) and its
/// state properties, each a name with a value; no two properties share
/// a name.
#[derive(Debug)]
pub struct BlockData {
    name: String,
    states: Vec<(String, BlockStateData)>,
}

/// The view of one state property.
pub open spec fn state_entry_view(e: (String, BlockStateData)) -> (Seq<char>, StateValue) {
    (e.0@, e.1@)
}

/// The views of a list of state properties.
pub open spec fn states_view(states: Seq<(String, BlockStateData)>) -> Seq<(Seq<char>, StateValue)> {
    states.map_values(|e: (String, BlockStateData)| state_entry_view(e))
}

impl View for BlockData {
    type V = BlockView;

    closed spec fn view(&self) -> BlockView {
        BlockView { name: self.name@, states: states_view(self.states@) }
    }
}

/// Name of the block that fills a new chunk.
pub open spec fn air_name() -> Seq<char> {
    "minecraft:air"@
}

/// The air block: named `minecraft:air`, with no state properties.
pub open spec fn air_view() -> BlockView {
    BlockView { name: air_name(), states: Seq::empty() }
}

impl BlockView {
    /// Whether no two state properties share a name.
    pub open spec fn has_distinct_state_names(self) -> bool {
        forall|i: int, j: int|
            0 <= i < self.states.len() && 0 <= j < self.states.len() && i != j ==> #[trigger] self.states[i].0
                != #[trigger] self.states[j].0
    }
}

impl BlockData {
    /// Every block's state properties have distinct names.
    #[verifier::type_invariant]
    spec fn state_names_are_distinct(self) -> bool {
        self@.has_distinct_state_names()
    }

    /// The block with this name and these state properties, if no two of
    /// the properties share a name.
    pub fn from_parts(name: String, states: Vec<(String, BlockStateData)>) -> (b: Option<Self>)
        ensures
            b is Some <==> (BlockView { name: name@, states: states_view(states@) }).has_distinct_state_names(),
            b matches Some(block) ==> block@ == (BlockView { name: name@, states: states_view(states@) }),
    {
        let ghost v = BlockView { name: name@, states: states_view(states@) };
        let mut i: usize = 0;
        while i < states.len()
            invariant
                i <= states.len(),
                v == (BlockView { name: name@, states: states_view(states@) }),
                forall|a: int, c: int| 0 <= a < i && 0 <= c < states@.len() && a != c ==> #[trigger] v.states[a].0
                    != #[trigger] v.states[c].0,
            decreases states.len() - i,
        {
            let mut j: usize = 0;
            while j < states.len()
                invariant
                    i < states.len(),
                    j <= states.len(),
                    v == (BlockView { name: name@, states: states_view(states@) }),
                    forall|a: int, c: int| 0 <= a < i && 0 <= c < states@.len() && a != c ==> #[trigger] v.states[a].0
                        != #[trigger] v.states[c].0,
                    forall|c: int| 0 <= c < j && c != i ==> v.states[i as int].0 != #[trigger] v.states[c].0,
                decreases states.len() - j,
            {
                if j != i && states[i].0 == states[j].0 {
                    assert(v.states[i as int].0 == v.states[j as int].0);
                    return None;
                }
                j = j + 1;
            }
            i = i + 1;
        }
        Some(BlockData { name, states })
    }

    /// The block's name.
    pub fn name(&self) -> (r: &String)
        ensures
            r@ == self@.name,
    {
        &self.name
    }

    /// The block's state properties, in order.
    pub fn states(&self) -> (r: &Vec<(String, BlockStateData)>)
        ensures
            states_view(r@) == self@.states,
            self@.has_distinct_state_names(),
    {
        proof {
            use_type_invariant(self);
        }
        &self.states
    }

    /// The air block.
    pub fn air() -> (b: Self)
        ensures
            b@ == air_view(),
    {
        let b = BlockData { name: "minecraft:air".to_string(), states: Vec::new() };
        assert(b@.states =~= Seq::<(Seq<char>, StateValue)>::empty());
        b
    }

    /// A copy with the same name and the same state properties.
    pub fn duplicate(&self) -> (r: Self)
        ensures
            r@ == self@,
    {
        proof {
            use_type_invariant(self);
        }
        let mut states: Vec<(String, BlockStateData)> = Vec::new();
        let mut i: usize = 0;
        while i < self.states.len()
            invariant
                i <= self.states.len(),
                states@.len() == i,
                forall|j: int| 0 <= j < i ==> state_entry_view(#[trigger] states@[j]) == state_entry_view(self.states@[j]),
            decreases self.states.len() - i,
        {
            let entry = (self.states[i].0.clone(), self.states[i].1.duplicate());
            states.push(entry);
            i = i + 1;
        }
        assert(states_view(states@) =~= self@.states);
        BlockData { name: self.name.clone(), states }
    }
}

/// Views of a chunk's blocks, indexed by x, then y, then z.
pub open spec fn grid_view(g: Vec<Vec<Vec<BlockData>>>) -> Seq<Seq<Seq<BlockView>>> {
    g@.map_values(|plane: Vec<Vec<BlockData>>| plane@.map_values(|row: Vec<BlockData>| row@.map_values(|b: BlockData| b@)))
}

/// Whether a grid is a cube of `n` by `n` by `n` blocks.
pub open spec fn is_cube(g: Seq<Seq<Seq<BlockView>>>, n: int) -> bool {
    &&& g.len() == n
    &&& forall|x: int| 0 <= x < n ==> (#[trigger] g[x]).len() == n
    &&& forall|x: int, y: int| 0 <= x < n && 0 <= y < n ==> (#[trigger] g[x][y]).len() == n
}

/// A 16 by 16 by 16 section of the world, stored in a file of its own.
#[derive(Debug)]
pub struct Chunk {
    pub coordinates: Coordinate,
    pub block_data: Vec<Vec<Vec<BlockData>>>,
}

/// A row of `n` air blocks.
fn air_row(n: usize) -> (r: Vec<BlockData>)
    ensures
        r@.len() == n,
        forall|z: int| 0 <= z < n ==> (#[trigger] r@[z])@ == air_view(),
{
    let mut r: Vec<BlockData> = Vec::new();
    let mut i: usize = 0;
    while i < n
        invariant
            i <= n,
            r@.len() == i,
            forall|z: int| 0 <= z < i ==> (#[trigger] r@[z])@ == air_view(),
        decreases n - i,
    {
        r.push(BlockData::air());
        i = i + 1;
    }
    r
}

/// A square of `n` by `n` air blocks.
fn air_plane(n: usize) -> (p: Vec<Vec<BlockData>>)
    ensures
        p@.len() == n,
        forall|y: int| 0 <= y < n ==> (#[trigger] p@[y])@.len() == n,
        forall|y: int, z: int| 0 <= y < n && 0 <= z < n ==> (#[trigger] p@[y]@[z])@ == air_view(),
{
    let mut p: Vec<Vec<BlockData>> = Vec::new();
    let mut i: usize = 0;
    while i < n
        invariant
            i <= n,
            p@.len() == i,
            forall|y: int| 0 <= y < i ==> (#[trigger] p@[y])@.len() == n,
            forall|y: int, z: int| 0 <= y < i && 0 <= z < n ==> (#[trigger] p@[y]@[z])@ == air_view(),
        decreases n - i,
    {
        p.push(air_row(n));
        i = i + 1;
    }
    p
}

impl Chunk {
    /// The blocks of the chunk as plain values.
    pub open spec fn grid(&self) -> Seq<Seq<Seq<BlockView>>> {
        grid_view(self.block_data)
    }

    /// Whether the chunk holds 16 by 16 by 16 blocks.
    pub open spec fn is_full_size(&self) -> bool {
        is_cube(self.grid(), 16)
    }

    /// Creates a chunk at the given chunk coordinate, 16 by 16 by 16
    /// blocks, all of them air.
    pub fn new(coordinates: &Coordinate) -> (c: Self)
        ensures
            c.coordinates == *coordinates,
            c.is_full_size(),
            forall|x: int, y: int, z: int|
                0 <= x < 16 && 0 <= y < 16 && 0 <= z < 16 ==> #[trigger] c.grid()[x][y][z] == air_view(),
    {
        let mut g: Vec<Vec<Vec<BlockData>>> = Vec::new();
        let mut i: usize = 0;
        while i < 16
            invariant
                i <= 16,
                g@.len() == i,
                forall|x: int| 0 <= x < i ==> (#[trigger] g@[x])@.len() == 16,
                forall|x: int, y: int| 0 <= x < i && 0 <= y < 16 ==> (#[trigger] g@[x]@[y])@.len() == 16,
                forall|x: int, y: int, z: int|
                    0 <= x < i && 0 <= y < 16 && 0 <= z < 16 ==> (#[trigger] g@[x]@[y]@[z])@ == air_view(),
            decreases 16 - i,
        {
            g.push(air_plane(16));
            i = i + 1;
        }
        let c = Chunk { coordinates: *coordinates, block_data: g };
        assert(c.is_full_size());
        c
    }

    /// Puts a copy of `block` at the given position inside the chunk.
    pub fn set_block(&mut self, coordinate: &Coordinate, block: &BlockData)
        requires
            0 <= coordinate.x < old(self).grid().len(),
            0 <= coordinate.y < old(self).grid()[coordinate.x as int].len(),
            0 <= coordinate.z < old(self).grid()[coordinate.x as int][coordinate.y as int].len(),
        ensures
            final(self).coordinates == old(self).coordinates,
            old(self).is_full_size() ==> final(self).is_full_size(),
            final(self).grid() == old(self).grid().update(
                coordinate.x as int,
                old(self).grid()[coordinate.x as int].update(
                    coordinate.y as int,
                    old(self).grid()[coordinate.x as int][coordinate.y as int].update(
                        coordinate.z as int,
                        block@,
                    ),
                ),
            ),
    {
        let x = coordinate.x as usize;
        let y = coordinate.y as usize;
        let z = coordinate.z as usize;
        let ghost g0 = self.grid();
        let b = block.duplicate();
        self.block_data[x][y][z] = b;
        assert(self.grid() =~~= g0.update(x as int, g0[x as int].update(y as int, g0[x as int][y as int].update(z as int, block@))));
    }
}

/// The name of a chunk's file: its three coordinates in decimal,
/// joined by underscores (such as `-3_4_12`).
pub open spec fn chunk_name(c: Coordinate) -> Seq<char> {
    int_decimal(c.x as int) + seq!['_'] + int_decimal(c.y as int) + seq!['_'] + int_decimal(c.z as int)
}

impl Chunk {
    /// The file name under which the chunk at `coords` is stored.
    pub fn get_name(coords: &Coordinate) -> (s: String)
        ensures
            s@ == chunk_name(*coords),
    {
        let mut v: Vec<char> = Vec::new();
        push_decimal(coords.x as i64, &mut v);
        v.push('_');
        push_decimal(coords.y as i64, &mut v);
        v.push('_');
        push_decimal(coords.z as i64, &mut v);
        assert(v@ =~= chunk_name(*coords));
        string_from_chars(&v)
    }

    /// The chunk at `coordinates`: the one read from storage when there
    /// was one, else a new chunk of air.
    pub fn load_or_new(loaded: Option<Chunk>, coordinates: &Coordinate) -> (c: Self)
        ensures
            loaded is Some ==> c == loaded->0,
            loaded is None ==> c.coordinates == *coordinates && c.is_full_size() && forall|x: int, y: int, z: int|
                0 <= x < 16 && 0 <= y < 16 && 0 <= z < 16 ==> #[trigger] c.grid()[x][y][z] == air_view(),
    {
        match loaded {
            Some(chunk) => chunk,
            None => Chunk::new(coordinates),
        }
    }
}

/// What `lz4_flex`'s `FrameEncoder` writes for `data`: one LZ4 frame,
/// in the encoder's default frame settings, that holds `data`.
pub uninterp spec fn lz4_frame(data: Seq<u8>) -> Seq<u8>;

/// What `lz4_flex`'s `FrameDecoder` reads out of `data`: the bytes the
/// LZ4 frames in it hold, or `None` when `data` is not made of whole,
/// well-formed frames.
pub uninterp spec fn lz4_unframe(data: Seq<u8>) -> Option<Seq<u8>>;

/// Compresses `data` into an LZ4 frame with `lz4_flex`'s
/// `FrameEncoder` writing into a `Vec`; the result is named `lz4_frame`.
/// The frame format is lossless, so the frame decodes to `data` again.
/// The encoder's errors come from its writer, which here is a `Vec`
/// that takes every write, or from a declared content size, which the
/// default settings leave out; so none occurs.
#[verifier::external_body]
fn lz4_frame_compress(data: &[u8]) -> (out: Vec<u8>)
    ensures
        out@ == lz4_frame(data@),
        lz4_unframe(out@) == Some(data@),
{
    let mut encoder = lz4_flex::frame::FrameEncoder::new(Vec::new());
    match encoder.write_all(data) {
        Ok(()) => match encoder.finish() {
            Ok(out) => out,
            Err(_) => Vec::new(),
        },
        Err(_) => Vec::new(),
    }
}

/// Decompresses LZ4 frames with `lz4_flex`'s `FrameDecoder`, reading to
/// the end; the result is named `lz4_unframe`.
#[verifier::external_body]
fn lz4_frame_decompress(data: &[u8]) -> (out: Option<Vec<u8>>)
    ensures
        out is None <==> lz4_unframe(data@) is None,
        out matches Some(v) ==> lz4_unframe(data@) == Some(v@),
{
    let mut out = Vec::new();
    match lz4_flex::frame::FrameDecoder::new(data).read_to_end(&mut out) {
        Ok(_) => Some(out),
        Err(_) => None,
    }
}

impl Chunk {
    /// The content of a chunk file: the chunk's encoded data (its CBOR
    /// bytes) in an LZ4 frame. Reading the file back gives the same data.
    pub fn file_bytes(encoded: &[u8]) -> (file: Vec<u8>)
        ensures
            file@ == lz4_frame(encoded@),
            lz4_unframe(file@) == Some(encoded@),
    {
        lz4_frame_compress(encoded)
    }

    /// The chunk's encoded data held in the content of a chunk file, or
    /// `None` when the content is not an LZ4 frame.
    pub fn encoded_data(file: &[u8]) -> (encoded: Option<Vec<u8>>)
        ensures
            encoded is None <==> lz4_unframe(file@) is None,
            encoded matches Some(v) ==> lz4_unframe(file@) == Some(v@),
    {
        lz4_frame_decompress(file)
    }
}

/// The names of the blocks that turtles may move through, each once,
/// and the file the list is stored in.
#[derive(Debug)]
pub struct WhitelistMap {
    map: Vec<String>,
    path: String,
}

/// The views of a list of names.
pub open spec fn names_view(names: Seq<String>) -> Seq<Seq<char>> {
    names.map_values(|n: String| n@)
}

impl WhitelistMap {
    /// No name is on the list twice.
    #[verifier::type_invariant]
    spec fn names_are_distinct(self) -> bool {
        names_view(self.map@).no_duplicates()
    }

    /// The names on the list, in order.
    pub closed spec fn names(&self) -> Seq<Seq<char>> {
        names_view(self.map@)
    }

    /// The path of the file the list is stored in.
    pub closed spec fn path_text(&self) -> Seq<char> {
        self.path@
    }

    /// Whether the block name `name` is on the list.
    pub open spec fn allows(&self, name: Seq<char>) -> bool {
        self.names().contains(name)
    }

    /// Every name on the list is allowed, wherever it stands on the
    /// list, and no other name is.
    pub proof fn lemma_allows_every_listed_name(&self, name: Seq<char>)
        ensures
            forall|i: int| 0 <= i < self.names().len() ==> self.allows(#[trigger] self.names()[i]),
            self.allows(name) <==> exists|i: int| 0 <= i < self.names().len() && #[trigger] self.names()[i] == name,
    {
        assert forall|i: int| 0 <= i < self.names().len() implies self.allows(#[trigger] self.names()[i]) by {
            assert(self.names().contains(self.names()[i]));
        }
    }

    /// A whitelist made from a list of names (`from_names`) allows each
    /// of them, the last as well as the first.
    pub proof fn lemma_made_from_names_allows_them(&self, names: Seq<String>)
        requires
            self.names() == names_view(names),
        ensures
            forall|i: int| 0 <= i < names.len() ==> self.allows((#[trigger] names[i])@),
    {
        assert forall|i: int| 0 <= i < names.len() implies self.allows((#[trigger] names[i])@) by {
            assert(self.names()[i] == names[i]@);
            assert(self.names().contains(names[i]@));
        }
    }

    /// A whitelist stored at `path` that lets turtles move through air
    /// only.
    pub fn new(path: &str) -> (w: Self)
        ensures
            w.path_text() == path@,
            w.names() == seq![air_name()],
    {
        let mut map: Vec<String> = Vec::new();
        map.push("minecraft:air".to_string());
        assert(names_view(map@) =~= seq![air_name()]);
        WhitelistMap { path: path.to_string(), map }
    }

    /// The whitelist of these names stored at `path`, if no name is
    /// listed twice.
    pub fn from_names(names: Vec<String>, path: &str) -> (w: Option<Self>)
        ensures
            w is Some <==> names_view(names@).no_duplicates(),
            w matches Some(list) ==> list.names() == names_view(names@) && list.path_text() == path@,
    {
        let ghost v = names_view(names@);
        let mut i: usize = 0;
        while i < names.len()
            invariant
                i <= names.len(),
                v == names_view(names@),
                forall|a: int, c: int| 0 <= a < i && 0 <= c < names@.len() && a != c ==> #[trigger] v[a] != #[trigger] v[c],
            decreases names.len() - i,
        {
            let mut j: usize = 0;
            while j < names.len()
                invariant
                    i < names.len(),
                    j <= names.len(),
                    v == names_view(names@),
                    forall|a: int, c: int| 0 <= a < i && 0 <= c < names@.len() && a != c ==> #[trigger] v[a] != #[trigger] v[c],
                    forall|c: int| 0 <= c < j && c != i ==> v[i as int] != #[trigger] v[c],
                decreases names.len() - j,
            {
                if j != i && names[i] == names[j] {
                    assert(v[i as int] == v[j as int]);
                    return None;
                }
                j = j + 1;
            }
            i = i + 1;
        }
        Some(WhitelistMap { map: names, path: path.to_string() })
    }

    /// The names on the list, in order, each once.
    pub fn names_list(&self) -> (r: &Vec<String>)
        ensures
            names_view(r@) == self.names(),
            self.names().no_duplicates(),
    {
        proof {
            use_type_invariant(self);
        }
        &self.map
    }

    /// The path of the file the list is stored in.
    pub fn path(&self) -> (r: &String)
        ensures
            r@ == self.path_text(),
    {
        &self.path
    }

    /// Whether the block name is on the list.
    pub fn contains(&self, name: &String) -> (r: bool)
        ensures
            r == self.allows(name@),
    {
        let mut i: usize = 0;
        while i < self.map.len()
            invariant
                i <= self.map.len(),
                forall|j: int| 0 <= j < i ==> (#[trigger] self.map@[j])@ != name@,
            decreases self.map.len() - i,
        {
            if self.map[i] == *name {
                assert(self.names()[i as int] == name@);
                return true;
            }
            i = i + 1;
        }
        assert(!self.names().contains(name@)) by {
            if self.names().contains(name@) {
                let k = choose|k: int| 0 <= k < self.names().len() && self.names()[k] == name@;
                assert(self.map@[k]@ == name@);
            }
        }
        false
    }

    /// The whitelist stored at `path`: the one read from that file, which
    /// then remembers `path`, when the file exists; else a new whitelist
    /// for `path`.
    pub fn load_or_new(path: &str, loaded: Option<WhitelistMap>) -> (w: Self)
        ensures
            w.path_text() == path@,
            loaded is Some ==> w.names() == loaded->0.names(),
            loaded is None ==> w.names() == seq![air_name()],
    {
        match loaded {
            Some(existing) => {
                proof {
                    use_type_invariant(&existing);
                }
                let WhitelistMap { map, path: _ } = existing;
                WhitelistMap { map, path: path.to_string() }
            },
            None => WhitelistMap::new(path),
        }
    }
}

/// What a file name (without extension) in the world folder stands for.
#[derive(Debug, PartialEq, Eq, Clone, Copy, Structural)]
pub enum ChunkFileEntry {
    /// The block whitelist, which lives beside the chunks.
    Whitelist,
    /// The chunk at this coordinate.
    Chunk(Coordinate),
    /// A name that is neither: not every piece between underscores is a
    /// decimal `i32`, or there are fewer than three pieces.
    Malformed,
}

/// Name of the whitelist file in the world folder.
pub open spec fn whitelist_file_name() -> Seq<char> {
    "whitelist"@
}

/// Whether every piece parses as an `i32`.
pub open spec fn all_parse(parts: Seq<Seq<char>>) -> bool {
    forall|i: int| 0 <= i < parts.len() ==> (#[trigger] parse_i32_value(parts[i])) is Some
}

/// What a file name in the world folder stands for: the whitelist, or
/// the chunk named by its first three underscore-separated numbers
/// (every piece must be a number, and there must be at least three).
pub open spec fn chunk_file_entry(stem: Seq<char>) -> ChunkFileEntry {
    if stem == whitelist_file_name() {
        ChunkFileEntry::Whitelist
    } else {
        let parts = split_on(stem, '_');
        if parts.len() >= 3 && all_parse(parts) {
            ChunkFileEntry::Chunk(
                Coordinate {
                    x: parse_i32_value(parts[0])->0,
                    y: parse_i32_value(parts[1])->0,
                    z: parse_i32_value(parts[2])->0,
                },
            )
        } else {
            ChunkFileEntry::Malformed
        }
    }
}

/// Reads a file name (without extension) of the world folder.
pub fn parse_chunk_file_stem(stem: &str) -> (e: ChunkFileEntry)
    ensures
        e == chunk_file_entry(stem@),
{
    let chars = chars_of(stem);
    let whitelist = chars_of("whitelist");
    if chars_equal(&chars, &whitelist) {
        return ChunkFileEntry::Whitelist;
    }
    let parts = split_chars(&chars, '_');
    let ghost pv = views_of(parts@);
    let mut values: Vec<i32> = Vec::new();
    let mut i: usize = 0;
    while i < parts.len()
        invariant
            i <= parts.len(),
            pv == views_of(parts@),
            pv == split_on(stem@, '_'),
            stem@ != whitelist_file_name(),
            values@.len() == i,
            forall|j: int| 0 <= j < i ==> parse_i32_value(#[trigger] pv[j]) == Some(values@[j]),
        decreases parts.len() - i,
    {
        assert(pv[i as int] == parts@[i as int]@);
        match parse_i32(&parts[i]) {
            Some(v) => values.push(v),
            None => {
                assert(!all_parse(pv));
                return ChunkFileEntry::Malformed;
            },
        }
        i = i + 1;
    }
    assert(all_parse(pv)) by {
        assert forall|j: int| 0 <= j < pv.len() implies (#[trigger] parse_i32_value(pv[j])) is Some by {
            assert(parse_i32_value(pv[j]) == Some(values@[j]));
        }
    }
    if values.len() < 3 {
        return ChunkFileEntry::Malformed;
    }
    assert(parse_i32_value(pv[0]) == Some(values@[0]));
    assert(parse_i32_value(pv[1]) == Some(values@[1]));
    assert(parse_i32_value(pv[2]) == Some(values@[2]));
    ChunkFileEntry::Chunk(Coordinate::new(values[0], values[1], values[2]))
}

/// Reading back the name of a chunk's file gives that chunk's
/// coordinate: the chunks listed from the world folder are exactly
/// the ones stored there, and no chunk is taken for the whitelist.
pub proof fn lemma_chunk_name_round_trip(c: Coordinate)
    ensures
        chunk_file_entry(chunk_name(c)) == ChunkFileEntry::Chunk(c),
{
    let a = int_decimal(c.x as int);
    let b = int_decimal(c.y as int);
    let d = int_decimal(c.z as int);
    lemma_int_decimal_chars(c.x as int, '_');
    lemma_int_decimal_chars(c.y as int, '_');
    lemma_int_decimal_chars(c.z as int, '_');
    lemma_split_without_sep(a, '_');
    lemma_split_append(a, '_', b);
    lemma_split_append(a + seq!['_'] + b, '_', d);
    let parts = split_on(chunk_name(c), '_');
    assert(parts =~= seq![a, b, d]);
    lemma_parse_int_decimal(c.x);
    lemma_parse_int_decimal(c.y);
    lemma_parse_int_decimal(c.z);
    assert(all_parse(parts));
    reveal_strlit("whitelist");
    lemma_int_decimal_chars(c.x as int, 'w');
    assert(chunk_name(c) != whitelist_file_name()) by {
        assert(whitelist_file_name()[0] == 'w');
        assert(a.len() > 0) by {
            crate::text::lemma_nat_digits_are_digits(if c.x < 0 { (-(c.x as int)) as nat } else { c.x as nat });
        }
        assert(chunk_name(c)[0] == a[0]);
        assert(a.contains(a[0]));
    }
}

/// Different chunks are stored under different names.
pub proof fn lemma_chunk_names_distinct(c1: Coordinate, c2: Coordinate)
    requires
        c1 != c2,
    ensures
        chunk_name(c1) != chunk_name(c2),
{
    lemma_chunk_name_round_trip(c1);
    lemma_chunk_name_round_trip(c2);
}

} // verus!
