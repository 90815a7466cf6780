use vstd::prelude::*;

use crate::GameError;
use vstd::string::StringExecFns;

verus! {

/// A texture-atlas sub-rectangle, in 32nds of the atlas side: the corners
/// `(x0, y0)` and `(x1, y1)` of the region.
#[derive(Clone, Copy, Debug, PartialEq, Eq, Structural)]
pub struct TexRect {
    pub x0: u16,
    pub y0: u16,
    pub x1: u16,
    pub y1: u16,
}

/// Builds the atlas rectangle with the given corner coordinates, in 32nds.
pub fn tex_from_coords(x0: u16, y0: u16, x1: u16, y1: u16) -> (t: TexRect)
    ensures
        t == (TexRect { x0, y0, x1, y1 }),
{
    TexRect { x0, y0, x1, y1 }
}

/// The first atlas rectangle stored at or after position `i` under `name`,
/// or `None` if no later entry has that name.
pub open spec fn table_lookup_from(
    entries: Seq<(String, TexRect)>,
    i: int,
    name: Seq<char>,
) -> Option<TexRect>
    decreases entries.len() - i,
{
    if i < 0 || i >= entries.len() {
        None
    } else if entries[i].0@ == name {
        Some(entries[i].1)
    } else {
        table_lookup_from(entries, i + 1, name)
    }
}

/// The first atlas rectangle stored under `name`, or `None` if the table has
/// no entry of that name.
pub open spec fn table_lookup(entries: Seq<(String, TexRect)>, name: Seq<char>) -> Option<TexRect> {
    table_lookup_from(entries, 0, name)
}

/// The sprite atlas table: named regions of the fixed 32 x 32-unit sheet.
#[derive(Debug)]
pub struct SpriteTable {
    pub entries: Vec<(String, TexRect)>,
}

impl SpriteTable {
    /// Looks a sprite name up; an unknown name is the `MissingSprite` failure.
    pub fn lookup(&self, name: &str) -> (r: Result<TexRect, GameError>)
        ensures
            r matches Ok(t) ==> table_lookup(self.entries@, name@) == Some(t),
            r is Err <==> table_lookup(self.entries@, name@) is None,
            r is Err ==> r == Err::<TexRect, GameError>(GameError::MissingSprite),
    {
        let wanted: String = String::from_str(name);
        let n = self.entries.len();
        let mut i: usize = 0;
        while i < n
            invariant
                0 <= i <= n,
                n == self.entries@.len(),
                wanted@ == name@,
                table_lookup_from(self.entries@, i as int, name@) == table_lookup(
                    self.entries@,
                    name@,
                ),
            decreases n - i,
        {
            if self.entries[i].0 == wanted {
                return Ok(self.entries[i].1);
            }
            i = i + 1;
        }
        Err(GameError::MissingSprite)
    }
}

/// The view of the number sprite's name for a neighbor mine count.
pub open spec fn digit_seq(n: int) -> Seq<char> {
    if n == 0 {
        "0"@
    } else if n == 1 {
        "1"@
    } else if n == 2 {
        "2"@
    } else if n == 3 {
        "3"@
    } else if n == 4 {
        "4"@
    } else if n == 5 {
        "5"@
    } else if n == 6 {
        "6"@
    } else if n == 7 {
        "7"@
    } else {
        "8"@
    }
}

/// The name of the number sprite for a neighbor mine count.
pub fn digit_name(n: u8) -> (r: &'static str)
    requires
        n <= 8,
    ensures
        r@ == digit_seq(n as int),
        n == 0 ==> r@ == "0"@,
        n == 1 ==> r@ == "1"@,
        n == 2 ==> r@ == "2"@,
        n == 3 ==> r@ == "3"@,
        n == 4 ==> r@ == "4"@,
        n == 5 ==> r@ == "5"@,
        n == 6 ==> r@ == "6"@,
        n == 7 ==> r@ == "7"@,
        n == 8 ==> r@ == "8"@,
{
    match n {
        0 => "0",
        1 => "1",
        2 => "2",
        3 => "3",
        4 => "4",
        5 => "5",
        6 => "6",
        7 => "7",
        _ => "8",
    }
}

/// Builds the atlas table of every sprite the game draws: the decorative
/// sprites, the game objects, and the number tiles for counts 0 through 8.
#[verifier::rlimit(100)]
pub fn create_hashmap() -> (t: SpriteTable)
    ensures
        t.entries@.len() == 15,
        table_lookup(t.entries@, "Teto"@) == Some(
            TexRect { x0: 28, y0: 0, x1: 32, y1: 4 },
        ),
        table_lookup(t.entries@, "Square"@) == Some(TexRect { x0: 0, y0: 0, x1: 1, y1: 1 }),
        table_lookup(t.entries@, "Circle"@) == Some(TexRect { x0: 1, y0: 0, x1: 2, y1: 1 }),
        table_lookup(t.entries@, "Mines"@) == Some(TexRect { x0: 0, y0: 1, x1: 1, y1: 2 }),
        table_lookup(t.entries@, "Tiles"@) == Some(TexRect { x0: 0, y0: 2, x1: 1, y1: 3 }),
        table_lookup(t.entries@, "Flags"@) == Some(TexRect { x0: 2, y0: 1, x1: 3, y1: 2 }),
        table_lookup(t.entries@, "1"@) == Some(TexRect { x0: 2, y0: 0, x1: 3, y1: 1 }),
        table_lookup(t.entries@, "2"@) == Some(TexRect { x0: 3, y0: 0, x1: 4, y1: 1 }),
        table_lookup(t.entries@, "3"@) == Some(TexRect { x0: 4, y0: 0, x1: 5, y1: 1 }),
        table_lookup(t.entries@, "4"@) == Some(TexRect { x0: 5, y0: 0, x1: 6, y1: 1 }),
        table_lookup(t.entries@, "5"@) == Some(TexRect { x0: 6, y0: 0, x1: 7, y1: 1 }),
        table_lookup(t.entries@, "6"@) == Some(TexRect { x0: 7, y0: 0, x1: 8, y1: 1 }),
        table_lookup(t.entries@, "7"@) == Some(TexRect { x0: 8, y0: 0, x1: 9, y1: 1 }),
        table_lookup(t.entries@, "8"@) == Some(TexRect { x0: 9, y0: 0, x1: 10, y1: 1 }),
        table_lookup(t.entries@, "0"@) == Some(TexRect { x0: 0, y0: 0, x1: 1, y1: 1 }),
{
    let mut entries: Vec<(String, TexRect)> = Vec::new();
    entries.push((String::from_str("Teto"), tex_from_coords(28, 0, 32, 4)));
    entries.push((String::from_str("Square"), tex_from_coords(0, 0, 1, 1)));
    entries.push((String::from_str("Circle"), tex_from_coords(1, 0, 2, 1)));
    // game objects
    entries.push((String::from_str("Mines"), tex_from_coords(0, 1, 1, 2)));
    entries.push((String::from_str("Tiles"), tex_from_coords(0, 2, 1, 3)));
    entries.push((String::from_str("Flags"), tex_from_coords(2, 1, 3, 2)));
    // number tiles
    entries.push((String::from_str("1"), tex_from_coords(2, 0, 3, 1)));
    entries.push((String::from_str("2"), tex_from_coords(3, 0, 4, 1)));
    entries.push((String::from_str("3"), tex_from_coords(4, 0, 5, 1)));
    entries.push((String::from_str("4"), tex_from_coords(5, 0, 6, 1)));
    entries.push((String::from_str("5"), tex_from_coords(6, 0, 7, 1)));
    entries.push((String::from_str("6"), tex_from_coords(7, 0, 8, 1)));
    entries.push((String::from_str("7"), tex_from_coords(8, 0, 9, 1)));
    entries.push((String::from_str("8"), tex_from_coords(9, 0, 10, 1)));
    entries.push((String::from_str("0"), tex_from_coords(0, 0, 1, 1)));
    proof {
        reveal_with_fuel(table_lookup_from, 17);
        reveal_strlit("Teto");
        reveal_strlit("Square");
        reveal_strlit("Circle");
        reveal_strlit("Mines");
        reveal_strlit("Tiles");
        reveal_strlit("Flags");
        reveal_strlit("0");
        reveal_strlit("1");
        reveal_strlit("2");
        reveal_strlit("3");
        reveal_strlit("4");
        reveal_strlit("5");
        reveal_strlit("6");
        reveal_strlit("7");
        reveal_strlit("8");
        assert(entries@.len() == 15);
        assert("Teto"@.len() == 4 && "Square"@.len() == 6 && "Circle"@.len() == 6 && "Mines"@.len()
            == 5 && "Tiles"@.len() == 5 && "Flags"@.len() == 5);
        assert("0"@.len() == 1 && "1"@.len() == 1 && "2"@.len() == 1 && "3"@.len() == 1
            && "4"@.len() == 1 && "5"@.len() == 1 && "6"@.len() == 1 && "7"@.len() == 1
            && "8"@.len() == 1);
        // names of equal length differ in their first character
        assert("Square"@[0] == 'S' && "Circle"@[0] == 'C');
        assert("Mines"@[0] == 'M' && "Tiles"@[0] == 'T' && "Flags"@[0] == 'F');
        assert("0"@[0] == '0' && "1"@[0] == '1' && "2"@[0] == '2' && "3"@[0] == '3' && "4"@[0]
            == '4' && "5"@[0] == '5' && "6"@[0] == '6' && "7"@[0] == '7' && "8"@[0] == '8');
        assert(table_lookup_from(entries@, 0, "Teto"@) == Some(
            TexRect { x0: 28, y0: 0, x1: 32, y1: 4 },
        ));
        assert(table_lookup_from(entries@, 0, "Square"@) == Some(
            TexRect { x0: 0, y0: 0, x1: 1, y1: 1 },
        ));
        assert(table_lookup_from(entries@, 0, "Circle"@) == Some(
            TexRect { x0: 1, y0: 0, x1: 2, y1: 1 },
        ));
        assert(table_lookup_from(entries@, 0, "Mines"@) == Some(
            TexRect { x0: 0, y0: 1, x1: 1, y1: 2 },
        ));
        assert(table_lookup_from(entries@, 0, "Tiles"@) == Some(
            TexRect { x0: 0, y0: 2, x1: 1, y1: 3 },
        ));
        assert(table_lookup_from(entries@, 0, "Flags"@) == Some(
            TexRect { x0: 2, y0: 1, x1: 3, y1: 2 },
        ));
        assert(table_lookup_from(entries@, 0, "1"@) == Some(
            TexRect { x0: 2, y0: 0, x1: 3, y1: 1 },
        ));
        assert(table_lookup_from(entries@, 0, "2"@) == Some(
            TexRect { x0: 3, y0: 0, x1: 4, y1: 1 },
        ));
        assert(table_lookup_from(entries@, 0, "3"@) == Some(
            TexRect { x0: 4, y0: 0, x1: 5, y1: 1 },
        ));
        assert(table_lookup_from(entries@, 0, "4"@) == Some(
            TexRect { x0: 5, y0: 0, x1: 6, y1: 1 },
        ));
        assert(table_lookup_from(entries@, 0, "5"@) == Some(
            TexRect { x0: 6, y0: 0, x1: 7, y1: 1 },
        ));
        assert(table_lookup_from(entries@, 0, "6"@) == Some(
            TexRect { x0: 7, y0: 0, x1: 8, y1: 1 },
        ));
        assert(table_lookup_from(entries@, 0, "7"@) == Some(
            TexRect { x0: 8, y0: 0, x1: 9, y1: 1 },
        ));
        assert(table_lookup_from(entries@, 0, "8"@) == Some(
            TexRect { x0: 9, y0: 0, x1: 10, y1: 1 },
        ));
        assert(table_lookup_from(entries@, 0, "0"@) == Some(
            TexRect { x0: 0, y0: 0, x1: 1, y1: 1 },
        ));
    }
    SpriteTable { entries }
}

} // verus!
