use vstd::prelude::*;
use crate::astar::{Pos, fits_i32};
use crate::coordinates::Coordinate;
use crate::chunks::BlockData;
use rocket::serde::json::serde_json::{Map as JsonMap, Value as JsonValue};
use crate::text::{chars_of, push_nat_digits, string_from_chars, nat_digits};

verus! {

/// The maximal runs of equal characters of `s`, in order, each as the
/// character and how many times it repeats.
pub open spec fn runs(s: Seq<char>) -> Seq<(char, nat)>
    decreases s.len(),
{
    if s.len() == 0 {
        Seq::empty()
    } else {
        let r = runs(s.drop_last());
        if r.len() > 0 && r.last().0 == s.last() {
            r.update(r.len() - 1, (s.last(), r.last().1 + 1))
        } else {
            r.push((s.last(), 1))
        }
    }
}

/// One run written out: the character alone when it occurs once, else
/// the character followed by its count in decimal.
pub open spec fn encode_run(run: (char, nat)) -> Seq<char> {
    if run.1 == 1 {
        seq![run.0]
    } else {
        seq![run.0] + nat_digits(run.1)
    }
}

/// A list of runs written out one after the other.
pub open spec fn encode_runs(r: Seq<(char, nat)>) -> Seq<char>
    decreases r.len(),
{
    if r.len() == 0 {
        Seq::empty()
    } else {
        encode_runs(r.drop_last()) + encode_run(r.last())
    }
}

/// The run-length encoding of `s`: every run written out.
pub open spec fn run_length_encoding(s: Seq<char>) -> Seq<char> {
    encode_runs(runs(s))
}

/// Run-length encodes a text: `"dlllrrrruudr"` becomes
/// `"dl3r4u2dr"`. Each run of a repeated character is written as the
/// character followed by the repeat count, a single character as
/// itself.
pub fn run_length_encode_string(input: &String) -> (out: String)
    requires
        input@.len() >= 1,
    ensures
        out@ == run_length_encoding(input@),
{
    let chars = chars_of(input.as_str());
    let n = chars.len();
    let ghost s = input@;
    let mut final_string: Vec<char> = Vec::new();
    let mut last_char = chars[0];
    let mut counter: u64 = 1;
    let mut i: usize = 1;
    proof {
        let t = s.take(1);
        assert(t.drop_last() =~= Seq::<char>::empty());
        assert(runs(t.drop_last()) == Seq::<(char, nat)>::empty());
        assert(t.last() == s[0]);
        assert(runs(t) =~= seq![(s[0], 1nat)]);
    }
    while i < n
        invariant
            1 <= i <= n,
            n == s.len(),
            chars@ == s,
            runs(s.take(i as int)).len() > 0,
            counter <= i,
            runs(s.take(i as int)).last() == (last_char, counter as nat),
            1 <= counter,
            final_string@ == encode_runs(runs(s.take(i as int)).drop_last()),
        decreases n - i,
    {
        let c = chars[i];
        let ghost prev = s.take(i as int);
        let ghost next = s.take(i + 1);
        let ghost rp = runs(prev);
        assert(next.drop_last() =~= prev);
        assert(next.last() == c);
        if last_char == c {
            counter = counter + 1;
            assert(runs(next) == rp.update(rp.len() - 1, (c, rp.last().1 + 1)));
            assert(runs(next).drop_last() =~= rp.drop_last());
        } else {
            let ghost before = final_string@;
            final_string.push(last_char);
            if counter != 1 {
                push_nat_digits(counter, &mut final_string);
            }
            assert(final_string@ =~= before + encode_run(rp.last()));
            counter = 1;
            assert(runs(next) == rp.push((c, 1nat)));
            assert(runs(next).drop_last() =~= rp);
            assert(rp =~= rp.drop_last().push(rp.last()));
        }
        last_char = c;
        i = i + 1;
    }
    assert(s.take(n as int) =~= s);
    let ghost before = final_string@;
    final_string.push(last_char);
    if counter != 1 {
        push_nat_digits(counter, &mut final_string);
    }
    proof {
        let r = runs(s);
        assert(final_string@ =~= before + encode_run(r.last()));
        assert(r =~= r.drop_last().push(r.last()));
    }
    string_from_chars(&final_string)
}

/// The direction a turtle faces: north (`n`, towards negative z), east
/// (`e`, positive x), south (`s`, positive z), west (`w`, negative x),
/// or none of these (any other text, or after a move that could not be
/// turned into an instruction).
#[derive(Debug, PartialEq, Eq, Clone, Copy, Structural)]
pub enum Heading {
    North,
    East,
    South,
    West,
    Unknown,
}

/// The heading a direction text names.
pub open spec fn heading_of(s: Seq<char>) -> Heading {
    if s == seq!['n'] {
        Heading::North
    } else if s == seq!['e'] {
        Heading::East
    } else if s == seq!['s'] {
        Heading::South
    } else if s == seq!['w'] {
        Heading::West
    } else {
        Heading::Unknown
    }
}

/// What turns a turtle facing `from` makes before moving forward to face
/// `to`: none, one left, one right or two lefts, in the letters `l` and
/// `r`, followed by `f`. Facing an unknown way it cannot move and gives
/// `ERR`, and its heading becomes unknown.
pub open spec fn turn_and_forward(from: Heading, to: Heading) -> (Seq<char>, Heading) {
    if from == Heading::Unknown {
        (seq!['E', 'R', 'R'], Heading::Unknown)
    } else if from == to {
        (seq!['f'], to)
    } else if left_of(from) == to {
        (seq!['l', 'f'], to)
    } else if right_of(from) == to {
        (seq!['r', 'f'], to)
    } else {
        (seq!['l', 'l', 'f'], to)
    }
}

/// The heading after turning left from `h`.
pub open spec fn left_of(h: Heading) -> Heading {
    match h {
        Heading::North => Heading::West,
        Heading::West => Heading::South,
        Heading::South => Heading::East,
        Heading::East => Heading::North,
        Heading::Unknown => Heading::Unknown,
    }
}

/// The heading after turning right from `h`.
pub open spec fn right_of(h: Heading) -> Heading {
    match h {
        Heading::North => Heading::East,
        Heading::East => Heading::South,
        Heading::South => Heading::West,
        Heading::West => Heading::North,
        Heading::Unknown => Heading::Unknown,
    }
}

/// The instruction letters for one move by `(dx, dy, dz)` of a turtle
/// facing `h`, and the heading after it: `u` up, `d` down, a horizontal
/// unit step by `turn_and_forward`; any other move gives `ERR` and an
/// unknown heading.
pub open spec fn move_step(dx: int, dy: int, dz: int, h: Heading) -> (Seq<char>, Heading) {
    if dx == 0 && dy == 1 && dz == 0 {
        (seq!['u'], h)
    } else if dx == 0 && dy == -1 && dz == 0 {
        (seq!['d'], h)
    } else if dx == -1 && dy == 0 && dz == 0 {
        turn_and_forward(h, Heading::West)
    } else if dx == 1 && dy == 0 && dz == 0 {
        turn_and_forward(h, Heading::East)
    } else if dx == 0 && dy == 0 && dz == -1 {
        turn_and_forward(h, Heading::North)
    } else if dx == 0 && dy == 0 && dz == 1 {
        turn_and_forward(h, Heading::South)
    } else {
        (seq!['E', 'R', 'R'], Heading::Unknown)
    }
}

/// The instructions that walk a turtle facing `h` along `path`, one
/// move per pair of consecutive positions.
pub open spec fn path_instructions(path: Seq<Pos>, h: Heading) -> Seq<char>
    decreases path.len(),
{
    if path.len() < 2 {
        Seq::empty()
    } else {
        let m = move_step(path[1].0 - path[0].0, path[1].1 - path[0].1, path[1].2 - path[0].2, h);
        m.0 + path_instructions(path.drop_first(), m.1)
    }
}

/// Whether the difference between each pair of consecutive positions of
/// `path` can be computed in `i32`.
pub open spec fn steps_fit(path: Seq<Pos>) -> bool {
    forall|i: int|
        #![trigger path[i]]
        1 <= i < path.len() ==> {
            &&& fits_i32(path[i].0 - path[i - 1].0)
            &&& fits_i32(path[i].1 - path[i - 1].1)
            &&& fits_i32(path[i].2 - path[i - 1].2)
        }
}

/// The heading a direction text names.
pub fn parse_heading(facing: &str) -> (h: Heading)
    ensures
        h == heading_of(facing@),
{
    let cs = chars_of(facing);
    if cs.len() != 1 {
        assert(facing@ != seq!['n'] && facing@ != seq!['e'] && facing@ != seq!['s'] && facing@ != seq!['w']);
        return Heading::Unknown;
    }
    let c = cs[0];
    assert(facing@ =~= seq![c]);
    if c == 'n' {
        Heading::North
    } else if c == 'e' {
        Heading::East
    } else if c == 's' {
        Heading::South
    } else if c == 'w' {
        Heading::West
    } else {
        assert(facing@ != seq!['n'] && facing@ != seq!['e'] && facing@ != seq!['s'] && facing@ != seq!['w']);
        Heading::Unknown
    }
}

/// Appends the letters of `s` to `out`.
fn push_all(out: &mut Vec<char>, s: &str)
    ensures
        final(out)@ == old(out)@ + s@,
{
    let cs = chars_of(s);
    let mut i: usize = 0;
    let ghost base = out@;
    while i < cs.len()
        invariant
            i <= cs.len(),
            cs@ == s@,
            out@ == base + cs@.take(i as int),
        decreases cs.len() - i,
    {
        out.push(cs[i]);
        i = i + 1;
        assert(out@ =~= base + cs@.take(i as int));
    }
    assert(cs@.take(cs.len() as int) =~= cs@);
}

/// Appends the letters of one move to `out` and gives the heading after
/// it.
fn push_move(out: &mut Vec<char>, dx: i32, dy: i32, dz: i32, h: Heading) -> (next: Heading)
    ensures
        final(out)@ == old(out)@ + move_step(dx as int, dy as int, dz as int, h).0,
        next == move_step(dx as int, dy as int, dz as int, h).1,
{
    let (letters, next): (Vec<char>, Heading) = if dx == 0 && dy == 1 && dz == 0 {
        (vec!['u'], h)
    } else if dx == 0 && dy == -1 && dz == 0 {
        (vec!['d'], h)
    } else {
        let target = if dx == -1 && dy == 0 && dz == 0 {
            Heading::West
        } else if dx == 1 && dy == 0 && dz == 0 {
            Heading::East
        } else if dx == 0 && dy == 0 && dz == -1 {
            Heading::North
        } else if dx == 0 && dy == 0 && dz == 1 {
            Heading::South
        } else {
            Heading::Unknown
        };
        if target == Heading::Unknown || h == Heading::Unknown {
            (vec!['E', 'R', 'R'], Heading::Unknown)
        } else if h == target {
            (vec!['f'], target)
        } else if (h == Heading::North && target == Heading::West) || (h == Heading::West && target == Heading::South)
            || (h == Heading::South && target == Heading::East) || (h == Heading::East && target == Heading::North) {
            (vec!['l', 'f'], target)
        } else if (h == Heading::North && target == Heading::East) || (h == Heading::East && target == Heading::South)
            || (h == Heading::South && target == Heading::West) || (h == Heading::West && target == Heading::North) {
            (vec!['r', 'f'], target)
        } else {
            (vec!['l', 'l', 'f'], target)
        }
    };
    assert(letters@ =~= move_step(dx as int, dy as int, dz as int, h).0);
    let mut i: usize = 0;
    let ghost base = out@;
    while i < letters.len()
        invariant
            i <= letters.len(),
            out@ == base + letters@.take(i as int),
        decreases letters.len() - i,
    {
        out.push(letters[i]);
        i = i + 1;
        assert(out@ =~= base + letters@.take(i as int));
    }
    assert(letters@.take(letters.len() as int) =~= letters@);
    next
}

/// The step `(dx, dz)` a turtle facing `h` makes when it moves forward:
/// north is towards negative z, east towards positive x, south towards
/// positive z and west towards negative x.
pub open spec fn forward_step(h: Heading) -> (int, int) {
    match h {
        Heading::North => (0, -1),
        Heading::East => (1, 0),
        Heading::South => (0, 1),
        Heading::West => (-1, 0),
        Heading::Unknown => (0, 0),
    }
}

/// The turns agree with the compass. A turtle facing a known heading
/// that moves one block horizontally goes straight on (`f`) when the
/// move is its forward step; turns left first (`lf`) when the move is
/// its forward step turned a quarter anticlockwise on a map with north
/// at the top (`(dx, dz)` to `(dz, -dx)`: east to north); turns right
/// first (`rf`) for a quarter clockwise turn; and turns round (`llf`)
/// for the step backwards. Afterwards it faces the way it moved.
pub proof fn lemma_turns_follow_the_compass(p: Pos, q: Pos, h: Heading)
    requires
        h != Heading::Unknown,
        q.1 == p.1,
        ({
            let d = (q.0 - p.0, q.2 - p.2);
            d == (1int, 0int) || d == (-1int, 0int) || d == (0int, 1int) || d == (0int, -1int)
        }),
    ensures
        ({
            let d = (q.0 - p.0, q.2 - p.2);
            let f = forward_step(h);
            let instructions = path_instructions(seq![p, q], h);
            &&& d == f ==> instructions == seq!['f']
            &&& d == (f.1, -f.0) ==> instructions == seq!['l', 'f']
            &&& d == (-f.1, f.0) ==> instructions == seq!['r', 'f']
            &&& d == (-f.0, -f.1) ==> instructions == seq!['l', 'l', 'f']
            &&& forward_step(move_step(q.0 - p.0, 0, q.2 - p.2, h).1) == d
        }),
{
    let path = seq![p, q];
    assert(path.drop_first().len() == 1);
    assert(path_instructions(path.drop_first(), move_step(q.0 - p.0, 0, q.2 - p.2, h).1) == Seq::<char>::empty());
    assert(path[1].0 - path[0].0 == q.0 - p.0);
    assert(path_instructions(path, h) =~= move_step(q.0 - p.0, 0, q.2 - p.2, h).0);
}

/// Turning left and then right, or right and then left, faces a turtle
/// the way it faced before; four left turns bring it round.
pub proof fn lemma_turns_undo(h: Heading)
    ensures
        right_of(left_of(h)) == h,
        left_of(right_of(h)) == h,
        left_of(left_of(left_of(left_of(h)))) == h,
        h != Heading::Unknown ==> left_of(h) != h && left_of(left_of(h)) != h,
{
}

/// A path of at least two positions gives at least one letter.
proof fn lemma_path_instructions_nonempty(path: Seq<Pos>, h: Heading)
    requires
        path.len() >= 2,
    ensures
        path_instructions(path, h).len() >= 1,
{
}

/// The positions of a path the search found.
pub open spec fn found_path(found: Option<(Vec<Pos>, i16)>) -> Seq<Pos> {
    match found {
        Some(path_cost) => path_cost.0@,
        None => Seq::empty(),
    }
}

/// The turtle instructions for a path found by the search, as the text
/// sent to the turtle: the letters of every move (see `move_step`),
/// starting from the heading `turtle_facing` names, run-length encoded.
/// A path of one position (the turtle is already there) gives an empty
/// text; no path gives no instructions.
pub fn get_path(found: Option<(Vec<Pos>, i16)>, turtle_facing: &String) -> (r: Option<String>)
    requires
        found is Some ==> steps_fit(found_path(found)),
    ensures
        found is None ==> r is None,
        found is Some ==> r is Some && r->0@ == run_length_encoding(
            path_instructions(found_path(found), heading_of(turtle_facing@)),
        ),
{
    match found {
        Some(path_cost) => {
            let pos_list = &path_cost.0;
            let ghost path = pos_list@;
            let ghost h0 = heading_of(turtle_facing@);
            if pos_list.len() < 2 {
                proof {
                    assert(runs(Seq::<char>::empty()) =~= Seq::<(char, nat)>::empty());
                    assert(run_length_encoding(path_instructions(path, h0)) =~= Seq::<char>::empty());
                }
                return Some(String::new());
            }
            let mut turtle_direction = parse_heading(turtle_facing.as_str());
            let mut instructions: Vec<char> = Vec::new();
            let mut i: usize = 1;
            proof {
                assert(path.subrange(0, path.len() as int) =~= path);
            }
            while i < pos_list.len()
                invariant
                    1 <= i <= pos_list.len(),
                    path == pos_list@,
                    steps_fit(path),
                    instructions@ + path_instructions(path.subrange(i - 1, path.len() as int), turtle_direction)
                        == path_instructions(path, h0),
                decreases pos_list.len() - i,
            {
                let last = pos_list[i - 1];
                let current = pos_list[i];
                assert(path[i as int] == current);
                let ghost rest = path.subrange(i - 1, path.len() as int);
                assert(rest[0] == last && rest[1] == current);
                assert(rest.drop_first() =~= path.subrange(i as int, path.len() as int));
                let ghost before = instructions@;
                let ghost old_dir = turtle_direction;
                turtle_direction = push_move(&mut instructions, current.0 - last.0, current.1 - last.1, current.2 - last.2, turtle_direction);
                assert(instructions@ + path_instructions(path.subrange(i as int, path.len() as int), turtle_direction)
                    =~= before + path_instructions(rest, old_dir));
                i = i + 1;
            }
            proof {
                let tail = path.subrange(pos_list.len() - 1, path.len() as int);
                assert(tail.len() == 1);
                assert(instructions@ =~= path_instructions(path, h0));
                lemma_path_instructions_nonempty(path, h0);
            }
            let text = string_from_chars(&instructions);
            Some(run_length_encode_string(&text))
        },
        None => None,
    }
}

broadcast use vstd::string::group_string_axioms;

/// The message format shared with the turtles: an instruction name and
/// its data (often a JSON text of its own).
#[derive(Debug, Clone)]
pub struct TurtleReadable {
    pub instruction: String,
    pub data: String,
}

impl TurtleReadable {
    /// A message with the given instruction and data.
    pub fn new(instruction: &str, data: &str) -> (m: Self)
        ensures
            m.instruction@ == instruction@,
            m.data@ == data@,
    {
        TurtleReadable { instruction: instruction.to_string(), data: data.to_string() }
    }
}

/// What a turtle's message asks for.
#[derive(Debug, PartialEq, Eq, Clone, Copy, Structural)]
pub enum TurtleInstruction {
    /// `register`: store the turtle's record.
    Register,
    /// `sendBlocks`: store the blocks it saw.
    SendBlocks,
    /// `verifyFile`: compare a script file's hash with the server's.
    VerifyFile,
    /// `ping`: nothing to do.
    Ping,
    /// Any other instruction, which is ignored.
    Unknown,
}

/// The instruction a message's instruction name stands for.
pub open spec fn instruction_of(name: Seq<char>) -> TurtleInstruction {
    if name == "register"@ {
        TurtleInstruction::Register
    } else if name == "sendBlocks"@ {
        TurtleInstruction::SendBlocks
    } else if name == "verifyFile"@ {
        TurtleInstruction::VerifyFile
    } else if name == "ping"@ {
        TurtleInstruction::Ping
    } else {
        TurtleInstruction::Unknown
    }
}

/// What a turtle's message asks for, by its instruction name.
pub fn classify_instruction(name: &str) -> (i: TurtleInstruction)
    ensures
        i == instruction_of(name@),
{
    let cs = chars_of(name);
    if crate::text::chars_equal(&cs, &chars_of("register")) {
        TurtleInstruction::Register
    } else if crate::text::chars_equal(&cs, &chars_of("sendBlocks")) {
        TurtleInstruction::SendBlocks
    } else if crate::text::chars_equal(&cs, &chars_of("verifyFile")) {
        TurtleInstruction::VerifyFile
    } else if crate::text::chars_equal(&cs, &chars_of("ping")) {
        TurtleInstruction::Ping
    } else {
        TurtleInstruction::Unknown
    }
}

/// What `serde_json::from_str::<(String, String)>` gives for a text: the
/// two strings of a JSON array of exactly two strings, or `None` when
/// the text is not such an array.
pub uninterp spec fn json_string_pair(text: Seq<char>) -> Option<(Seq<char>, Seq<char>)>;

/// Parses a JSON array of two strings with `serde_json::from_str` (as
/// Rocket re-exports it); the result is named `json_string_pair`.
#[verifier::external_body]
fn parse_string_pair(text: &str) -> (r: Option<(String, String)>)
    ensures
        r is None <==> json_string_pair(text@) is None,
        r matches Some(p) ==> json_string_pair(text@) == Some((p.0@, p.1@)),
{
    match ::rocket::serde::json::from_str::<(String, String)>(text) {
        Ok(p) => Some(p),
        Err(_) => None,
    }
}

/// The file name and the turtle's hash of that file that a `verifyFile`
/// message carries as its data: a JSON array of two strings.
pub fn verify_file_request(data: &str) -> (r: Option<(String, String)>)
    ensures
        r is None <==> json_string_pair(data@) is None,
        r matches Some(p) ==> json_string_pair(data@) == Some((p.0@, p.1@)),
{
    parse_string_pair(data)
}

/// The JSON object `{"content": content, "file_name": file_name}` as
/// `serde_json` writes it (keys in sorted order, strings escaped).
pub uninterp spec fn file_data_json(file_name: Seq<char>, content: Seq<char>) -> Seq<char>;

/// Writes the object with the keys `file_name` and `content` with
/// `serde_json` (a `Map`, which keeps its keys sorted, turned into text
/// by `Value`'s `Display`); the result is named `file_data_json`.
#[verifier::external_body]
fn write_file_data_json(file_name: &str, content: &str) -> (s: String)
    ensures
        s@ == file_data_json(file_name@, content@),
{
    let mut map = JsonMap::new();
    map.insert("file_name".to_string(), JsonValue::String(file_name.to_string()));
    map.insert("content".to_string(), JsonValue::String(content.to_string()));
    JsonValue::Object(map).to_string()
}

/// The `fileData` message that carries a script file to a turtle: its
/// data is the JSON object of the file's name and content.
pub fn file_data_message(file_name: &str, content: &str) -> (m: TurtleReadable)
    ensures
        m.instruction@ == "fileData"@,
        m.data@ == file_data_json(file_name@, content@),
{
    let data = write_file_data_json(file_name, content);
    TurtleReadable { instruction: "fileData".to_string(), data }
}

/// Whether the path `path` lies in the folder `base` (or is `base`
/// itself), for paths written as their bytes in normalised form, as
/// `canonicalize` gives them: absolute, with single `/` separators, no
/// `.` or `..` parts and no trailing `/` but for the root. On such paths
/// this is `Path::starts_with`: `base` is a prefix of `path` that ends
/// where a part of `path` ends.
pub open spec fn lies_within(path: Seq<u8>, base: Seq<u8>) -> bool {
    &&& base.len() <= path.len()
    &&& path.take(base.len() as int) == base
    &&& {
        ||| base.len() == 0
        ||| path.len() == base.len()
        ||| base.last() == 47u8
        ||| path[base.len() as int] == 47u8
    }
}

/// Whether a script file the turtle names resolves to a path inside the
/// script folder: `path` and `base` are the bytes of the file's and the
/// folder's normalised paths.
pub fn lies_within_folder(path: &[u8], base: &[u8]) -> (r: bool)
    ensures
        r == lies_within(path@, base@),
{
    let n = base.len();
    if n > path.len() {
        return false;
    }
    let mut i: usize = 0;
    while i < n
        invariant
            i <= n,
            n == base@.len(),
            n <= path@.len(),
            forall|j: int| 0 <= j < i ==> path@[j] == base@[j],
        decreases n - i,
    {
        if path[i] != base[i] {
            assert(path@.take(n as int)[i as int] != base@[i as int]);
            return false;
        }
        i = i + 1;
    }
    assert(path@.take(n as int) =~= base@);
    n == 0 || n == path.len() || base[n - 1] == 47u8 || path[n] == 47u8
}

/// What the server does after a turtle asks it to check a script file.
#[derive(Debug)]
pub enum FileVerification {
    /// Send this message back.
    Reply(TurtleReadable),
    /// Send the file's content to the turtle.
    SendFile,
}

/// The answer to a turtle that holds `file_name` with hash
/// `client_hash`, given the hash of the server's copy (`None` when the
/// server has no such file or could not hash it): `fileNotFound` when
/// there is no server hash, `fileIdentical` when the hashes are equal,
/// otherwise the file is sent.
pub fn ws_verify_file(file_name: &str, server_hash: Option<String>, client_hash: &String) -> (v: FileVerification)
    ensures
        server_hash is None ==> (v matches FileVerification::Reply(m) && m.instruction@ == "fileNotFound"@ && m.data@
            == file_name@),
        server_hash is Some && server_hash->0@ == client_hash@ ==> (v matches FileVerification::Reply(m)
            && m.instruction@ == "fileIdentical"@ && m.data@ == file_name@),
        server_hash is Some && server_hash->0@ != client_hash@ ==> v is SendFile,
{
    match server_hash {
        None => FileVerification::Reply(TurtleReadable::new("fileNotFound", file_name)),
        Some(hash) => {
            if hash == *client_hash {
                FileVerification::Reply(TurtleReadable::new("fileIdentical", file_name))
            } else {
                FileVerification::SendFile
            }
        },
    }
}

/// Where a block a turtle saw is stored: in the chunk at `chunk`, at
/// position `local` inside it.
#[derive(Debug)]
pub struct BlockPlacement {
    pub chunk: Coordinate,
    pub local: Coordinate,
    pub block: BlockData,
}

/// Where each block a turtle reports is stored, in the order reported:
/// the chunk that holds its world coordinate and its position inside
/// that chunk.
pub fn ws_receive_blocks(blocks: &Vec<(BlockData, Coordinate)>) -> (r: Vec<BlockPlacement>)
    ensures
        r@.len() == blocks@.len(),
        forall|i: int|
            #![trigger r@[i]]
            0 <= i < r@.len() ==> {
                &&& r@[i].chunk == blocks@[i].1.world_to_chunk_coords_spec()
                &&& r@[i].local == blocks@[i].1.world_to_local_coords_spec()
                &&& r@[i].block@ == blocks@[i].0@
            },
{
    let mut r: Vec<BlockPlacement> = Vec::new();
    let mut i: usize = 0;
    while i < blocks.len()
        invariant
            i <= blocks.len(),
            r@.len() == i,
            forall|j: int|
                #![trigger r@[j]]
                0 <= j < i ==> {
                    &&& r@[j].chunk == blocks@[j].1.world_to_chunk_coords_spec()
                    &&& r@[j].local == blocks@[j].1.world_to_local_coords_spec()
                    &&& r@[j].block@ == blocks@[j].0@
                },
        decreases blocks.len() - i,
    {
        let world_coords = Coordinate::new(blocks[i].1.x, blocks[i].1.y, blocks[i].1.z);
        let chunk_coords = world_coords.world_to_chunk_coords();
        let local_coords = world_coords.world_to_local_coords();
        let block = blocks[i].0.duplicate();
        r.push(BlockPlacement { chunk: chunk_coords, local: local_coords, block });
        i = i + 1;
    }
    r
}

} // verus!
