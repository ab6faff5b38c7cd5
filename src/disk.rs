use vstd::prelude::*;

verus! {

/// A disk that occupies a cell of the board.
#[derive(Clone, Copy, Debug, PartialEq, Eq, Structural)]
pub enum Disk {
    Red,
    Blue,
}

/// The player whose move comes next.
#[derive(Clone, Copy, Debug, PartialEq, Eq, Structural)]
pub enum Turn {
    Red,
    Blue,
}

/// The preview marker that shows where the current player's disk would go.
#[derive(Clone, Copy, Debug, PartialEq, Eq, Structural)]
pub enum GhostDisk {
    Red,
    Blue,
}

/// The other player.
pub open spec fn other(t: Turn) -> Turn {
    match t {
        Turn::Red => Turn::Blue,
        Turn::Blue => Turn::Red,
    }
}

/// The disk that a player drops.
pub open spec fn disk_of(t: Turn) -> Disk {
    match t {
        Turn::Red => Disk::Red,
        Turn::Blue => Disk::Blue,
    }
}

/// The player who owns a disk.
pub open spec fn owner_of(d: Disk) -> Turn {
    match d {
        Disk::Red => Turn::Red,
        Disk::Blue => Turn::Blue,
    }
}

impl Turn {
    /// Hands the move to the other player.
    pub fn next(&mut self)
        ensures
            *final(self) == other(*old(self)),
    {
        *self = match *self {
            Turn::Red => Turn::Blue,
            Turn::Blue => Turn::Red,
        };
    }

    /// The disk this player drops.
    pub fn to_disk(self) -> (r: Disk)
        ensures
            r == disk_of(self),
    {
        match self {
            Turn::Red => Disk::Red,
            Turn::Blue => Disk::Blue,
        }
    }

    /// The preview marker of this player.
    pub fn to_ghost_disk(self) -> (r: GhostDisk)
        ensures
            r == (match self {
                Turn::Red => GhostDisk::Red,
                Turn::Blue => GhostDisk::Blue,
            }),
    {
        match self {
            Turn::Red => GhostDisk::Red,
            Turn::Blue => GhostDisk::Blue,
        }
    }

    /// The player's name as it is shown to people.
    pub fn name(self) -> (r: &'static str)
        ensures
            r@ == (match self {
                Turn::Red => "Red"@,
                Turn::Blue => "Blue"@,
            }),
    {
        match self {
            Turn::Red => {
                proof {
                    reveal_strlit("Red");
                }
                "Red"
            },
            Turn::Blue => {
                proof {
                    reveal_strlit("Blue");
                }
                "Blue"
            },
        }
    }
}

impl Disk {
    /// The player who owns this disk.
    pub fn to_turn(self) -> (r: Turn)
        ensures
            r == owner_of(self),
    {
        match self {
            Disk::Red => Turn::Red,
            Disk::Blue => Turn::Blue,
        }
    }
}

} // verus!
