use vstd::prelude::*;
use crate::chunks::{Chunk, BlockView, StateValue, state_text};
use crate::text::{chars_of, chars_equal, string_from_chars};

verus! {

/// What `regex::Regex::new(pattern)` followed by `is_match(text)` gives:
/// `None` when the pattern does not compile, else whether the pattern
/// matches somewhere in the text.
pub uninterp spec fn regex_match(pattern: Seq<char>, text: Seq<char>) -> Option<bool>;

/// Whether `s` begins with `p`.
pub open spec fn starts_with(s: Seq<char>, p: Seq<char>) -> bool {
    p.len() <= s.len() && s.take(p.len() as int) == p
}

/// Whether `s` ends with `p`.
pub open spec fn ends_with(s: Seq<char>, p: Seq<char>) -> bool {
    p.len() <= s.len() && s.skip(s.len() - p.len()) == p
}

/// Compiles `pattern` with `regex::Regex::new` and tests it against
/// `text` with `Regex::is_match`; the result is named `regex_match`.
/// For the three patterns the library uses, the crate's documented
/// syntax also gives the result: they compile, `^` and `$` (without the
/// multi-line flag) anchor at the start and the end of the text, `\.`
/// is a literal dot and `(a|b)` an alternation.
#[verifier::external_body]
fn regex_is_match(pattern: &str, text: &str) -> (r: Option<bool>)
    ensures
        r == regex_match(pattern@, text@),
        pattern@ == assets_pattern() ==> r == Some(starts_with(text@, "assets/"@)),
        pattern@ == block_folder_pattern() ==> r == Some(
            occurs_in(text@, "/block/"@) || occurs_in(text@, "/blockstates/"@),
        ),
        pattern@ == asset_file_pattern() ==> r == Some(ends_with(text@, ".json"@) || ends_with(text@, ".png"@)),
{
    match ::regex::Regex::new(pattern) {
        Ok(re) => Some(re.is_match(text)),
        Err(_) => None,
    }
}

/// Entries of a mod archive that start in the `assets/` folder.
pub open spec fn assets_pattern() -> Seq<char> {
    "^assets/"@
}

/// Entries inside a `block` or `blockstates` folder.
pub open spec fn block_folder_pattern() -> Seq<char> {
    "/(block|blockstates)/"@
}

/// Entries that are JSON or PNG files.
pub open spec fn asset_file_pattern() -> Seq<char> {
    "\\.(json|png)$"@
}

/// Whether an archive entry is extracted: it lies under `assets/`, in
/// a `block` or `blockstates` folder, and is a `.json` or `.png` file.
pub open spec fn is_block_asset(name: Seq<char>) -> bool {
    &&& starts_with(name, "assets/"@)
    &&& occurs_in(name, "/block/"@) || occurs_in(name, "/blockstates/"@)
    &&& ends_with(name, ".json"@) || ends_with(name, ".png"@)
}

/// The entries extracted are exactly those the three patterns pick: the
/// name begins with `assets/`, holds `/block/` or `/blockstates/`
/// somewhere, and ends in `.json` or `.png`; nothing else decides.
pub proof fn lemma_block_asset_filter(name: Seq<char>)
    ensures
        is_block_asset(name) <==> {
            &&& "assets/"@.len() <= name.len() && name.take("assets/"@.len() as int) == "assets/"@
            &&& (exists|i: int| 0 <= i && i + "/block/"@.len() <= name.len()
                    && #[trigger] name.subrange(i, i + "/block/"@.len()) == "/block/"@)
                || (exists|i: int| 0 <= i && i + "/blockstates/"@.len() <= name.len()
                    && #[trigger] name.subrange(i, i + "/blockstates/"@.len()) == "/blockstates/"@)
            &&& (".json"@.len() <= name.len() && name.skip(name.len() - ".json"@.len()) == ".json"@)
                || (".png"@.len() <= name.len() && name.skip(name.len() - ".png"@.len()) == ".png"@)
        },
{
    assert(occurs_in(name, "/block/"@) <==> exists|i: int| 0 <= i && i + "/block/"@.len() <= name.len()
        && #[trigger] name.subrange(i, i + "/block/"@.len()) == "/block/"@) by {
        if occurs_in(name, "/block/"@) {
            let i = choose|i: int| occurs_at(name, "/block/"@, i);
            assert(name.subrange(i, i + "/block/"@.len()) == "/block/"@);
        }
        if exists|i: int| 0 <= i && i + "/block/"@.len() <= name.len()
            && #[trigger] name.subrange(i, i + "/block/"@.len()) == "/block/"@ {
            let i = choose|i: int| 0 <= i && i + "/block/"@.len() <= name.len()
                && #[trigger] name.subrange(i, i + "/block/"@.len()) == "/block/"@;
            assert(occurs_at(name, "/block/"@, i));
        }
    }
    assert(occurs_in(name, "/blockstates/"@) <==> exists|i: int| 0 <= i && i + "/blockstates/"@.len() <= name.len()
        && #[trigger] name.subrange(i, i + "/blockstates/"@.len()) == "/blockstates/"@) by {
        if occurs_in(name, "/blockstates/"@) {
            let i = choose|i: int| occurs_at(name, "/blockstates/"@, i);
            assert(name.subrange(i, i + "/blockstates/"@.len()) == "/blockstates/"@);
        }
        if exists|i: int| 0 <= i && i + "/blockstates/"@.len() <= name.len()
            && #[trigger] name.subrange(i, i + "/blockstates/"@.len()) == "/blockstates/"@ {
            let i = choose|i: int| 0 <= i && i + "/blockstates/"@.len() <= name.len()
                && #[trigger] name.subrange(i, i + "/blockstates/"@.len()) == "/blockstates/"@;
            assert(occurs_at(name, "/blockstates/"@, i));
        }
    }
}

/// Block assets of any namespace are extracted, not only Minecraft's
/// own: for every namespace and file name, the block-state file
/// `assets/<namespace>/blockstates/<file>.json` and the block texture
/// `assets/<namespace>/textures/block/<file>.png` are block assets.
pub proof fn lemma_block_assets_of_any_namespace(namespace: Seq<char>, file: Seq<char>)
    ensures
        is_block_asset("assets/"@ + namespace + "/blockstates/"@ + file + ".json"@),
        is_block_asset("assets/"@ + namespace + "/textures/block/"@ + file + ".png"@),
{
    reveal_strlit("assets/");
    reveal_strlit("/blockstates/");
    reveal_strlit("/textures/block/");
    reveal_strlit("/block/");
    reveal_strlit(".json");
    reveal_strlit(".png");
    let a = "assets/"@;
    let n1 = a + namespace + "/blockstates/"@ + file + ".json"@;
    assert(n1.take(a.len() as int) =~= a);
    let i1: int = (a.len() + namespace.len()) as int;
    assert(n1.subrange(i1, i1 + "/blockstates/"@.len()) =~= "/blockstates/"@);
    assert(occurs_at(n1, "/blockstates/"@, i1));
    assert(n1.skip(n1.len() - ".json"@.len()) =~= ".json"@);
    let n2 = a + namespace + "/textures/block/"@ + file + ".png"@;
    assert(n2.take(a.len() as int) =~= a);
    let i2: int = (a.len() + namespace.len() + 9) as int;
    assert(n2.subrange(i2, i2 + "/block/"@.len()) =~= "/block/"@);
    assert(occurs_at(n2, "/block/"@, i2));
    assert(n2.skip(n2.len() - ".png"@.len()) =~= ".png"@);
}

/// Whether the archive entry `name` holds block models, block states or
/// block textures, tested with the patterns `^assets/`,
/// `/(block|blockstates)/` and `\.(json|png)$` in turn.
pub fn is_block_asset_entry(name: &str) -> (r: bool)
    ensures
        r == is_block_asset(name@),
{
    let under_assets = regex_is_match("^assets/", name);
    if under_assets != Some(true) {
        return false;
    }
    let in_block_folder = regex_is_match("/(block|blockstates)/", name);
    if in_block_folder != Some(true) {
        return false;
    }
    regex_is_match("\\.(json|png)$", name) == Some(true)
}

/// Whether `p` occurs in `s` at position `i`.
pub open spec fn occurs_at(s: Seq<char>, p: Seq<char>, i: int) -> bool {
    0 <= i && i + p.len() <= s.len() && s.subrange(i, i + p.len()) == p
}

/// Whether `p` occurs anywhere in `s`.
pub open spec fn occurs_in(s: Seq<char>, p: Seq<char>) -> bool {
    exists|i: int| occurs_at(s, p, i)
}

/// Whether `p` occurs in `s` (`str::contains`).
pub fn text_contains(s: &Vec<char>, p: &Vec<char>) -> (r: bool)
    ensures
        r == occurs_in(s@, p@),
{
    if p.len() > s.len() {
        assert(!occurs_in(s@, p@));
        return false;
    }
    let mut i: usize = 0;
    let last: usize = s.len() - p.len();
    while i <= last
        invariant
            p.len() <= s.len(),
            last == s.len() - p.len(),
            forall|k: int| 0 <= k < i ==> !occurs_at(s@, p@, k),
        decreases last + 1 - i,
    {
        let mut j: usize = 0;
        let mut same = true;
        while j < p.len()
            invariant
                i + p.len() <= s.len(),
                j <= p.len(),
                same == (forall|t: int| 0 <= t < j ==> s@[i + t] == p@[t]),
            decreases p.len() - j,
        {
            if s[i + j] != p[j] {
                same = false;
            }
            j = j + 1;
        }
        if same {
            assert(s@.subrange(i as int, i + p.len()) =~= p@);
            assert(occurs_at(s@, p@, i as int));
            return true;
        }
        assert(!occurs_at(s@, p@, i as int)) by {
            if occurs_at(s@, p@, i as int) {
                assert forall|t: int| 0 <= t < p.len() implies s@[i + t] == p@[t] by {
                    assert(s@.subrange(i as int, i + p.len())[t] == s@[i + t]);
                }
            }
        }
        i = i + 1;
    }
    assert(!occurs_in(s@, p@)) by {
        if occurs_in(s@, p@) {
            let k = choose|k: int| occurs_at(s@, p@, k);
            assert(k < i);
        }
    }
    false
}

/// Whether a mod archive found by the crawler is read: not one under a
/// `processedMods` folder (any path that holds `processedMods`).
pub fn should_read_archive(path: &str) -> (r: bool)
    ensures
        r == !occurs_in(path@, "processedMods"@),
{
    let s = chars_of(path);
    let p = chars_of("processedMods");
    !text_contains(&s, &p)
}

/// Where an extracted entry is written: the output folder, a slash,
/// then the entry's name.
pub fn extraction_destination(output_path: &str, entry_name: &str) -> (d: String)
    ensures
        d@ == output_path@ + seq!['/'] + entry_name@,
{
    let mut v = chars_of(output_path);
    let ghost base = v@;
    v.push('/');
    let name = chars_of(entry_name);
    let mut i: usize = 0;
    while i < name.len()
        invariant
            i <= name.len(),
            name@ == entry_name@,
            v@ == base + seq!['/'] + name@.take(i as int),
        decreases name.len() - i,
    {
        v.push(name[i]);
        i = i + 1;
        assert(v@ =~= base + seq!['/'] + name@.take(i as int));
    }
    assert(name@.take(name.len() as int) =~= name@);
    string_from_chars(&v)
}

/// One block handed to the mesher, as plain values.
pub struct MeshBlockView {
    pub position: (i32, i32, i32),
    pub name: Seq<char>,
    pub properties: Seq<(Seq<char>, Seq<char>)>,
}

/// One block handed to the mesher: its position inside the chunk, its
/// name and its state properties as texts.
#[derive(Debug)]
pub struct MeshBlock {
    pub position: (i32, i32, i32),
    pub name: String,
    pub properties: Vec<(String, String)>,
}

/// The view of one property as two texts.
pub open spec fn property_view(p: (String, String)) -> (Seq<char>, Seq<char>) {
    (p.0@, p.1@)
}

impl View for MeshBlock {
    type V = MeshBlockView;

    open spec fn view(&self) -> MeshBlockView {
        MeshBlockView {
            position: self.position,
            name: self.name@,
            properties: self.properties@.map_values(|p: (String, String)| property_view(p)),
        }
    }
}

/// Whether the mesher leaves a block out: air and short grass.
pub open spec fn skipped_by_mesher(name: Seq<char>) -> bool {
    name == "minecraft:air"@ || name == "minecraft:short_grass"@
}

/// The state properties of a block as texts.
pub open spec fn property_texts(states: Seq<(Seq<char>, StateValue)>) -> Seq<(Seq<char>, Seq<char>)> {
    states.map_values(|e: (Seq<char>, StateValue)| (e.0, state_text(e.1)))
}

/// The mesher's view of the block at index `cell` of the grid.
pub open spec fn mesh_view_of(g: Seq<Seq<Seq<BlockView>>>, cell: (int, int, int)) -> MeshBlockView {
    MeshBlockView {
        position: (cell.0 as i32, cell.1 as i32, cell.2 as i32),
        name: g[cell.0][cell.1][cell.2].name,
        properties: property_texts(g[cell.0][cell.1][cell.2].states),
    }
}

/// The indices of the first `b` blocks of row `(i, j)`.
pub open spec fn row_cells(i: int, j: int, b: int) -> Seq<(int, int, int)> {
    Seq::new(b as nat, |k: int| (i, j, k))
}

/// The indices of the blocks of the first `c` rows of plane `i`, in scan
/// order.
pub open spec fn plane_cells(g: Seq<Seq<Seq<BlockView>>>, i: int, c: int) -> Seq<(int, int, int)>
    decreases c,
{
    if c <= 0 {
        Seq::empty()
    } else {
        plane_cells(g, i, c - 1) + row_cells(i, c - 1, g[i][c - 1].len() as int)
    }
}

/// The indices of the blocks of the first `r` planes of the grid, in
/// scan order (x slowest, z fastest).
pub open spec fn grid_cells(g: Seq<Seq<Seq<BlockView>>>, r: int) -> Seq<(int, int, int)>
    decreases r,
{
    if r <= 0 {
        Seq::empty()
    } else {
        grid_cells(g, r - 1) + plane_cells(g, r - 1, g[r - 1].len() as int)
    }
}

/// The mesher's view of the blocks at `cells` that it does not leave
/// out, in order.
pub open spec fn kept_blocks(g: Seq<Seq<Seq<BlockView>>>, cells: Seq<(int, int, int)>) -> Seq<MeshBlockView>
    decreases cells.len(),
{
    if cells.len() == 0 {
        Seq::empty()
    } else {
        let rest = kept_blocks(g, cells.drop_last());
        let c = cells.last();
        if skipped_by_mesher(g[c.0][c.1][c.2].name) {
            rest
        } else {
            rest.push(mesh_view_of(g, c))
        }
    }
}

/// The blocks of a chunk that the mesher draws, in scan order.
pub open spec fn chunk_mesh_blocks(chunk: Chunk) -> Seq<MeshBlockView> {
    kept_blocks(chunk.grid(), grid_cells(chunk.grid(), chunk.grid().len() as int))
}

proof fn lemma_row_cells_contains(i: int, j: int, b: int, k: int)
    requires
        0 <= k < b,
    ensures
        row_cells(i, j, b).contains((i, j, k)),
{
    assert(row_cells(i, j, b)[k] == (i, j, k));
}

proof fn lemma_plane_cells_contains(g: Seq<Seq<Seq<BlockView>>>, i: int, c: int, j: int, k: int)
    requires
        0 <= j < c,
        0 <= k < g[i][j].len(),
    ensures
        plane_cells(g, i, c).contains((i, j, k)),
    decreases c,
{
    let before = plane_cells(g, i, c - 1);
    let row = row_cells(i, c - 1, g[i][c - 1].len() as int);
    if j == c - 1 {
        lemma_row_cells_contains(i, j, g[i][j].len() as int, k);
        let t = choose|t: int| 0 <= t < row.len() && row[t] == (i, j, k);
        assert((before + row)[before.len() + t] == (i, j, k));
    } else {
        lemma_plane_cells_contains(g, i, c - 1, j, k);
        let t = choose|t: int| 0 <= t < before.len() && before[t] == (i, j, k);
        assert((before + row)[t] == (i, j, k));
    }
}

proof fn lemma_grid_cells_contains(g: Seq<Seq<Seq<BlockView>>>, r: int, i: int, j: int, k: int)
    requires
        0 <= i < r,
        0 <= j < g[i].len(),
        0 <= k < g[i][j].len(),
    ensures
        grid_cells(g, r).contains((i, j, k)),
    decreases r,
{
    let before = grid_cells(g, r - 1);
    let plane = plane_cells(g, r - 1, g[r - 1].len() as int);
    if i == r - 1 {
        lemma_plane_cells_contains(g, i, g[i].len() as int, j, k);
        let t = choose|t: int| 0 <= t < plane.len() && plane[t] == (i, j, k);
        assert((before + plane)[before.len() + t] == (i, j, k));
    } else {
        lemma_grid_cells_contains(g, r - 1, i, j, k);
        let t = choose|t: int| 0 <= t < before.len() && before[t] == (i, j, k);
        assert((before + plane)[t] == (i, j, k));
    }
}

proof fn lemma_row_cells_in_grid(g: Seq<Seq<Seq<BlockView>>>, i: int, j: int, c: (int, int, int))
    requires
        0 <= i < g.len(),
        0 <= j < g[i].len(),
        row_cells(i, j, g[i][j].len() as int).contains(c),
    ensures
        c.0 == i && c.1 == j && 0 <= c.2 < g[i][j].len(),
{
    let t = choose|t: int| 0 <= t < row_cells(i, j, g[i][j].len() as int).len() && row_cells(i, j, g[i][j].len() as int)[t] == c;
}

proof fn lemma_plane_cells_in_grid(g: Seq<Seq<Seq<BlockView>>>, i: int, r: int, c: (int, int, int))
    requires
        0 <= i < g.len(),
        0 <= r <= g[i].len(),
        plane_cells(g, i, r).contains(c),
    ensures
        c.0 == i && 0 <= c.1 < g[i].len() && 0 <= c.2 < g[i][c.1].len(),
    decreases r,
{
    let before = plane_cells(g, i, r - 1);
    let row = row_cells(i, r - 1, g[i][r - 1].len() as int);
    let t = choose|t: int| 0 <= t < (before + row).len() && (before + row)[t] == c;
    if t < before.len() {
        assert(before[t] == c);
        lemma_plane_cells_in_grid(g, i, r - 1, c);
    } else {
        assert(row[t - before.len()] == c);
        lemma_row_cells_in_grid(g, i, r - 1, c);
    }
}

proof fn lemma_grid_cells_in_grid(g: Seq<Seq<Seq<BlockView>>>, r: int, c: (int, int, int))
    requires
        0 <= r <= g.len(),
        grid_cells(g, r).contains(c),
    ensures
        0 <= c.0 < g.len() && 0 <= c.1 < g[c.0].len() && 0 <= c.2 < g[c.0][c.1].len(),
    decreases r,
{
    let before = grid_cells(g, r - 1);
    let plane = plane_cells(g, r - 1, g[r - 1].len() as int);
    let t = choose|t: int| 0 <= t < (before + plane).len() && (before + plane)[t] == c;
    if t < before.len() {
        assert(before[t] == c);
        lemma_grid_cells_in_grid(g, r - 1, c);
    } else {
        assert(plane[t - before.len()] == c);
        lemma_plane_cells_in_grid(g, r - 1, g[r - 1].len() as int, c);
    }
}

proof fn lemma_kept_blocks_contains(g: Seq<Seq<Seq<BlockView>>>, cells: Seq<(int, int, int)>, c: (int, int, int))
    requires
        cells.contains(c),
        !skipped_by_mesher(g[c.0][c.1][c.2].name),
    ensures
        kept_blocks(g, cells).contains(mesh_view_of(g, c)),
    decreases cells.len(),
{
    let rest = kept_blocks(g, cells.drop_last());
    let last = cells.last();
    if last == c {
        assert(kept_blocks(g, cells) == rest.push(mesh_view_of(g, c)));
        assert(kept_blocks(g, cells)[rest.len() as int] == mesh_view_of(g, c));
    } else {
        let t = choose|t: int| 0 <= t < cells.len() && cells[t] == c;
        assert(cells.drop_last()[t] == c);
        lemma_kept_blocks_contains(g, cells.drop_last(), c);
        let u = choose|u: int| 0 <= u < rest.len() && rest[u] == mesh_view_of(g, c);
        if !skipped_by_mesher(g[last.0][last.1][last.2].name) {
            assert(kept_blocks(g, cells)[u] == mesh_view_of(g, c));
        }
    }
}

proof fn lemma_kept_blocks_come_from_cells(g: Seq<Seq<Seq<BlockView>>>, cells: Seq<(int, int, int)>, m: MeshBlockView)
    requires
        kept_blocks(g, cells).contains(m),
    ensures
        exists|c: (int, int, int)| cells.contains(c) && !skipped_by_mesher(g[c.0][c.1][c.2].name) && m == mesh_view_of(g, c),
    decreases cells.len(),
{
    let rest = kept_blocks(g, cells.drop_last());
    let last = cells.last();
    let kept = kept_blocks(g, cells);
    let u = choose|u: int| 0 <= u < kept.len() && kept[u] == m;
    if !skipped_by_mesher(g[last.0][last.1][last.2].name) && u == rest.len() {
        assert(cells[cells.len() - 1] == last);
        assert(cells.contains(last));
    } else {
        assert(rest[u] == m);
        lemma_kept_blocks_come_from_cells(g, cells.drop_last(), m);
        let c = choose|c: (int, int, int)| cells.drop_last().contains(c) && !skipped_by_mesher(g[c.0][c.1][c.2].name) && m == mesh_view_of(g, c);
        let t = choose|t: int| 0 <= t < cells.drop_last().len() && cells.drop_last()[t] == c;
        assert(cells[t] == c);
    }
}

/// The mesher gets exactly the blocks of the chunk that are neither air
/// nor short grass: every block of the chunk whose name is not
/// `minecraft:air` nor `minecraft:short_grass` is handed over, at its
/// index position, with its name and properties; and everything handed
/// over is such a block.
pub proof fn lemma_mesher_gets_every_drawn_block(chunk: Chunk)
    ensures
        forall|i: int, j: int, k: int|
            #![trigger chunk.grid()[i][j][k]]
            0 <= i < chunk.grid().len() && 0 <= j < chunk.grid()[i].len() && 0 <= k < chunk.grid()[i][j].len()
                && chunk.grid()[i][j][k].name != "minecraft:air"@
                && chunk.grid()[i][j][k].name != "minecraft:short_grass"@
                ==> chunk_mesh_blocks(chunk).contains((MeshBlockView {
                    position: (i as i32, j as i32, k as i32),
                    name: chunk.grid()[i][j][k].name,
                    properties: property_texts(chunk.grid()[i][j][k].states),
                })),
        forall|m: MeshBlockView|
            #![trigger chunk_mesh_blocks(chunk).contains(m)]
            chunk_mesh_blocks(chunk).contains(m) ==> exists|i: int, j: int, k: int|
                #![trigger chunk.grid()[i][j][k]]
                0 <= i < chunk.grid().len() && 0 <= j < chunk.grid()[i].len() && 0 <= k < chunk.grid()[i][j].len()
                    && chunk.grid()[i][j][k].name != "minecraft:air"@
                    && chunk.grid()[i][j][k].name != "minecraft:short_grass"@
                    && m == (MeshBlockView {
                        position: (i as i32, j as i32, k as i32),
                        name: chunk.grid()[i][j][k].name,
                        properties: property_texts(chunk.grid()[i][j][k].states),
                    }),
{
    let g = chunk.grid();
    let cells = grid_cells(g, g.len() as int);
    assert forall|i: int, j: int, k: int|
        #![trigger chunk.grid()[i][j][k]]
        0 <= i < chunk.grid().len() && 0 <= j < chunk.grid()[i].len() && 0 <= k < chunk.grid()[i][j].len()
            && chunk.grid()[i][j][k].name != "minecraft:air"@
            && chunk.grid()[i][j][k].name != "minecraft:short_grass"@
        implies chunk_mesh_blocks(chunk).contains((MeshBlockView {
            position: (i as i32, j as i32, k as i32),
            name: chunk.grid()[i][j][k].name,
            properties: property_texts(chunk.grid()[i][j][k].states),
        })) by {
        lemma_grid_cells_contains(g, g.len() as int, i, j, k);
        lemma_kept_blocks_contains(g, cells, (i, j, k));
    }
    assert forall|m: MeshBlockView| chunk_mesh_blocks(chunk).contains(m) implies exists|i: int, j: int, k: int|
        #![trigger chunk.grid()[i][j][k]]
        0 <= i < g.len() && 0 <= j < g[i].len() && 0 <= k < g[i][j].len()
            && g[i][j][k].name != "minecraft:air"@
            && g[i][j][k].name != "minecraft:short_grass"@
            && m == mesh_view_of(g, (i, j, k)) by {
        lemma_kept_blocks_come_from_cells(g, cells, m);
        let c = choose|c: (int, int, int)| cells.contains(c) && !skipped_by_mesher(g[c.0][c.1][c.2].name) && m == mesh_view_of(g, c);
        lemma_grid_cells_in_grid(g, g.len() as int, c);
        assert(g[c.0][c.1][c.2] == chunk.grid()[c.0][c.1][c.2]);
    }
}

/// The state properties of a block as texts.
fn property_list(states: &Vec<(String, crate::chunks::BlockStateData)>) -> (r: Vec<(String, String)>)
    ensures
        r@.map_values(|p: (String, String)| property_view(p)) == property_texts(
            states@.map_values(|e: (String, crate::chunks::BlockStateData)| crate::chunks::state_entry_view(e)),
        ),
{
    let mut r: Vec<(String, String)> = Vec::new();
    let mut i: usize = 0;
    while i < states.len()
        invariant
            i <= states.len(),
            r@.len() == i,
            forall|j: int|
                0 <= j < i ==> property_view(#[trigger] r@[j]) == (states@[j].0@, state_text(states@[j].1@)),
        decreases states.len() - i,
    {
        let key = states[i].0.clone();
        let value = states[i].1.to_string();
        r.push((key, value));
        i = i + 1;
    }
    assert(r@.map_values(|p: (String, String)| property_view(p)) =~= property_texts(
        states@.map_values(|e: (String, crate::chunks::BlockStateData)| crate::chunks::state_entry_view(e)),
    ));
    r
}

/// The blocks of a chunk to draw, in scan order, with their positions
/// inside the chunk; air and short grass are left out.
pub fn dump_chunk(chunk: &Chunk) -> (blocks: Vec<MeshBlock>)
    ensures
        blocks@.map_values(|b: MeshBlock| b@) == chunk_mesh_blocks(*chunk),
{
    let ghost g = chunk.grid();
    let air = chars_of("minecraft:air");
    let grass = chars_of("minecraft:short_grass");
    let mut blocks: Vec<MeshBlock> = Vec::new();
    let mut r: usize = 0;
    while r < chunk.block_data.len()
        invariant
            r <= chunk.block_data.len(),
            g == chunk.grid(),
            air@ == "minecraft:air"@,
            grass@ == "minecraft:short_grass"@,
            blocks@.map_values(|b: MeshBlock| b@) == kept_blocks(g, grid_cells(g, r as int)),
        decreases chunk.block_data.len() - r,
    {
        let plane = &chunk.block_data[r];
        let mut c: usize = 0;
        proof {
            assert(grid_cells(g, r as int) + plane_cells(g, r as int, 0) =~= grid_cells(g, r as int));
        }
        while c < plane.len()
            invariant
                r < chunk.block_data.len(),
                c <= plane.len(),
                *plane == chunk.block_data@[r as int],
                plane@.len() == g[r as int].len(),
                g == chunk.grid(),
                air@ == "minecraft:air"@,
                grass@ == "minecraft:short_grass"@,
                blocks@.map_values(|b: MeshBlock| b@) == kept_blocks(g, grid_cells(g, r as int) + plane_cells(g, r as int, c as int)),
            decreases plane.len() - c,
        {
            let row = &plane[c];
            let mut b: usize = 0;
            proof {
                assert(grid_cells(g, r as int) + plane_cells(g, r as int, c as int) + row_cells(r as int, c as int, 0)
                    =~= grid_cells(g, r as int) + plane_cells(g, r as int, c as int));
            }
            while b < row.len()
                invariant
                    r < chunk.block_data.len(),
                    c < plane.len(),
                    b <= row.len(),
                    *plane == chunk.block_data@[r as int],
                    *row == plane@[c as int],
                    row@.len() == g[r as int][c as int].len(),
                    g == chunk.grid(),
                    air@ == "minecraft:air"@,
                    grass@ == "minecraft:short_grass"@,
                    blocks@.map_values(|b: MeshBlock| b@) == kept_blocks(
                        g,
                        grid_cells(g, r as int) + plane_cells(g, r as int, c as int) + row_cells(r as int, c as int, b as int),
                    ),
                decreases row.len() - b,
            {
                let ghost prefix = grid_cells(g, r as int) + plane_cells(g, r as int, c as int) + row_cells(r as int, c as int, b as int);
                let ghost next = grid_cells(g, r as int) + plane_cells(g, r as int, c as int) + row_cells(r as int, c as int, b + 1);
                assert(next =~= prefix.push((r as int, c as int, b as int)));
                assert(next.drop_last() =~= prefix);
                let block = &row[b];
                assert(block@ == g[r as int][c as int][b as int]);
                let name = chars_of(block.name().as_str());
                let ghost before = blocks@.map_values(|b: MeshBlock| b@);
                if chars_equal(&name, &air) || chars_equal(&name, &grass) {
                    assert(skipped_by_mesher(g[r as int][c as int][b as int].name));
                } else {
                    let position = (r as i32, c as i32, b as i32);
                    let properties = property_list(block.states());
                    let m = MeshBlock { position, name: block.name().clone(), properties };
                    assert(m@ == mesh_view_of(g, (r as int, c as int, b as int)));
                    blocks.push(m);
                    assert(blocks@.map_values(|b: MeshBlock| b@) =~= before.push(m@));
                }
                b = b + 1;
            }
            proof {
                assert(grid_cells(g, r as int) + plane_cells(g, r as int, c as int) + row_cells(r as int, c as int, row.len() as int)
                    =~= grid_cells(g, r as int) + plane_cells(g, r as int, c + 1));
            }
            c = c + 1;
        }
        proof {
            assert(grid_cells(g, r as int) + plane_cells(g, r as int, plane.len() as int) =~= grid_cells(g, r + 1));
        }
        r = r + 1;
    }
    blocks
}

} // verus!
