use vstd::prelude::*;
use crate::coordinates::Coordinate;
use crate::text::{chars_of, push_decimal, string_from_chars, int_decimal, parse_u16, parse_u16_value};

verus! {

/// One inventory slot's content: an item name and how many of it.
#[derive(Debug, Clone, PartialEq, Eq, PartialOrd, Ord)]
pub struct Slot {
    pub name: String,
    pub count: i8,
}

/// A turtle's inventory: its number of slots and what each holds.
#[derive(Debug)]
pub struct Inventory {
    pub size: u32,
    pub slots: Vec<Option<Slot>>,
}

/// `n` empty slots.
pub open spec fn empty_slots(n: nat) -> Seq<Option<Slot>> {
    Seq::new(n, |i: int| None::<Slot>)
}

impl Inventory {
    /// An inventory of `size` slots holding `contents`, padded with empty
    /// slots up to `size`; with no contents, an empty inventory.
    pub fn new(size: u32, contents: Option<Vec<Option<Slot>>>) -> (inv: Self)
        requires
            contents is Some ==> (contents->0.len() as u32) <= size,
        ensures
            inv.size == size,
            contents is None || contents->0@.len() <= u32::MAX ==> inv.slots@.len() == size,
            contents is Some ==> inv.slots@ == contents->0@ + empty_slots((size - (contents->0.len() as u32)) as nat),
            contents is None ==> inv.slots@ == empty_slots(size as nat),
    {
        match contents {
            Some(contents) => {
                let ghost given = contents@;
                let mut new_inventory = Inventory { size: size, slots: contents };
                let deficit = new_inventory.size - (new_inventory.slots.len() as u32);
                if deficit > 0 {
                    let mut i: u32 = 0;
                    while i < deficit
                        invariant
                            i <= deficit,
                            new_inventory.size == size,
                            new_inventory.slots@ == given + empty_slots(i as nat),
                        decreases deficit - i,
                    {
                        new_inventory.slots.push(None);
                        i = i + 1;
                        assert(new_inventory.slots@ =~= given + empty_slots(i as nat));
                    }
                } else {
                    assert(new_inventory.slots@ =~= given + empty_slots(0));
                }
                new_inventory
            },
            None => Self::new_empty(size),
        }
    }

    /// An inventory of `size` empty slots.
    pub fn new_empty(size: u32) -> (inv: Self)
        ensures
            inv.size == size,
            inv.slots@ == empty_slots(size as nat),
    {
        let mut slots: Vec<Option<Slot>> = Vec::new();
        let mut i: u32 = 0;
        while i < size
            invariant
                i <= size,
                slots@ == empty_slots(i as nat),
            decreases size - i,
        {
            slots.push(None);
            i = i + 1;
            assert(slots@ =~= empty_slots(i as nat));
        }
        assert(slots@ =~= empty_slots(size as nat));
        Inventory { size, slots }
    }
}

/// What an inventory made from a size and optional contents is: that
/// size, and the contents as they are (not padded), or `size` empty
/// slots when there are none.
pub open spec fn is_inventory_from(inv: Inventory, inventory_precursor: (u32, Option<Vec<Option<Slot>>>)) -> bool {
    &&& inv.size == inventory_precursor.0
    &&& inventory_precursor.1 is Some ==> inv.slots == inventory_precursor.1->0
    &&& inventory_precursor.1 is None ==> inv.slots@ == empty_slots(inventory_precursor.0 as nat)
}

impl From<(u32, Option<Vec<Option<Slot>>>)> for Inventory {
    /// The inventory a size and optional contents describe: the contents
    /// as they are (not padded), or `size` empty slots when there are none.
    fn from(inventory_precursor: (u32, Option<Vec<Option<Slot>>>)) -> (inv: Self)
        ensures
            is_inventory_from(inv, inventory_precursor),
    {
        match inventory_precursor.1 {
            Some(contents) => Inventory { size: inventory_precursor.0, slots: contents },
            None => Self::new_empty(inventory_precursor.0),
        }
    }
}

/// The empty slots of an inventory made from a size alone are a new
/// `Vec`, and a `Vec` is known only by its view, so no spec value is the
/// result of `from`: what `from` returns is stated by its own `ensures`
/// (`is_inventory_from`), not through `from_spec`.
impl vstd::std_specs::convert::FromSpecImpl<(u32, Option<Vec<Option<Slot>>>)> for Inventory {
    open spec fn obeys_from_spec() -> bool {
        false
    }

    open spec fn from_spec(inventory_precursor: (u32, Option<Vec<Option<Slot>>>)) -> Inventory {
        choose|inv: Inventory| is_inventory_from(inv, inventory_precursor)
    }
}

/// A turtle's record: its id, whether it is connected, its inventory
/// and equipment, where it is and how much fuel it has.
#[derive(Debug)]
pub struct Turtle {
    pub id: u16,
    pub connected: bool,
    pub inventory: Inventory,
    pub equipped_left: Option<Slot>,
    pub equipped_right: Option<Slot>,
    pub coordinates: Coordinate,
    pub fuel: i16,
}

/// The file a turtle's record is saved in: `turtles/<id>.json`.
pub open spec fn turtle_file_path(id: u16) -> Seq<char> {
    "turtles/"@ + int_decimal(id as int) + ".json"@
}

impl Turtle {
    /// The id of the turtle whose record file has the name `stem`
    /// (without `.json`), if the name is a decimal `u16`.
    pub fn id_from_file_stem(stem: &str) -> (id: Option<u16>)
        ensures
            id == parse_u16_value(stem@),
    {
        parse_u16(&chars_of(stem))
    }

    /// The path of the file that holds the record of the turtle `id`.
    pub fn file_path(id: u16) -> (p: String)
        ensures
            p@ == turtle_file_path(id),
    {
        let mut v = chars_of("turtles/");
        push_decimal(id as i64, &mut v);
        let ext = chars_of(".json");
        let mut i: usize = 0;
        let ghost base = v@;
        while i < ext.len()
            invariant
                i <= ext.len(),
                v@ == base + ext@.take(i as int),
            decreases ext.len() - i,
        {
            v.push(ext[i]);
            i = i + 1;
            assert(v@ =~= base + ext@.take(i as int));
        }
        assert(ext@.take(ext.len() as int) =~= ext@);
        assert(v@ =~= turtle_file_path(id));
        string_from_chars(&v)
    }
}

/// The name a turtle's record file is saved under reads back as that
/// turtle's id.
pub proof fn lemma_turtle_id_round_trip(id: u16)
    ensures
        parse_u16_value(int_decimal(id as int)) == Some(id),
{
    crate::text::lemma_nat_digits_are_digits(id as nat);
    crate::text::lemma_digits_value_of_nat_digits(id as nat);
    let t = int_decimal(id as int);
    assert(crate::text::is_digit(t[0]));
}

} // verus!
