use vstd::prelude::*;

verus! {

/// The eleven mnemonics of the assembly language.
#[derive(Clone, Copy, Debug, PartialEq, Eq, Structural)]
pub enum Mnemonic {
    Hlt,
    Dat,
    Add,
    Sub,
    Sta,
    Lda,
    Bra,
    Brz,
    Brp,
    Inp,
    Out,
}

/// A row of the instruction table: a mnemonic, the word it encodes to before
/// its operand is added, and whether it is written with an operand.
pub struct Instruction {
    pub name: &'static str,
    pub decimal: usize,
    pub parameter: bool,
}

/// The three lower-case letters of a mnemonic.
pub open spec fn mnemonic_name(m: Mnemonic) -> Seq<char> {
    match m {
        Mnemonic::Hlt => seq!['h', 'l', 't'],
        Mnemonic::Dat => seq!['d', 'a', 't'],
        Mnemonic::Add => seq!['a', 'd', 'd'],
        Mnemonic::Sub => seq!['s', 'u', 'b'],
        Mnemonic::Sta => seq!['s', 't', 'a'],
        Mnemonic::Lda => seq!['l', 'd', 'a'],
        Mnemonic::Bra => seq!['b', 'r', 'a'],
        Mnemonic::Brz => seq!['b', 'r', 'z'],
        Mnemonic::Brp => seq!['b', 'r', 'p'],
        Mnemonic::Inp => seq!['i', 'n', 'p'],
        Mnemonic::Out => seq!['o', 'u', 't'],
    }
}

/// The base encoding of a mnemonic.
pub open spec fn base_encoding(m: Mnemonic) -> nat {
    match m {
        Mnemonic::Hlt => 0,
        Mnemonic::Dat => 0,
        Mnemonic::Add => 100,
        Mnemonic::Sub => 200,
        Mnemonic::Sta => 300,
        Mnemonic::Lda => 500,
        Mnemonic::Bra => 600,
        Mnemonic::Brz => 700,
        Mnemonic::Brp => 800,
        Mnemonic::Inp => 901,
        Mnemonic::Out => 902,
    }
}

/// Whether a mnemonic is written with an operand.
pub open spec fn takes_parameter(m: Mnemonic) -> bool {
    !(m is Hlt || m is Inp || m is Out)
}

/// The mnemonic spelled by `t`, if any.
pub open spec fn mnemonic_of(t: Seq<char>) -> Option<Mnemonic> {
    if t == mnemonic_name(Mnemonic::Hlt) {
        Some(Mnemonic::Hlt)
    } else if t == mnemonic_name(Mnemonic::Dat) {
        Some(Mnemonic::Dat)
    } else if t == mnemonic_name(Mnemonic::Add) {
        Some(Mnemonic::Add)
    } else if t == mnemonic_name(Mnemonic::Sub) {
        Some(Mnemonic::Sub)
    } else if t == mnemonic_name(Mnemonic::Sta) {
        Some(Mnemonic::Sta)
    } else if t == mnemonic_name(Mnemonic::Lda) {
        Some(Mnemonic::Lda)
    } else if t == mnemonic_name(Mnemonic::Bra) {
        Some(Mnemonic::Bra)
    } else if t == mnemonic_name(Mnemonic::Brz) {
        Some(Mnemonic::Brz)
    } else if t == mnemonic_name(Mnemonic::Brp) {
        Some(Mnemonic::Brp)
    } else if t == mnemonic_name(Mnemonic::Inp) {
        Some(Mnemonic::Inp)
    } else if t == mnemonic_name(Mnemonic::Out) {
        Some(Mnemonic::Out)
    } else {
        None
    }
}

impl Mnemonic {
    /// The base encoding of this mnemonic.
    pub fn base(self) -> (r: usize)
        ensures
            r == base_encoding(self),
    {
        match self {
            Mnemonic::Hlt => 0,
            Mnemonic::Dat => 0,
            Mnemonic::Add => 100,
            Mnemonic::Sub => 200,
            Mnemonic::Sta => 300,
            Mnemonic::Lda => 500,
            Mnemonic::Bra => 600,
            Mnemonic::Brz => 700,
            Mnemonic::Brp => 800,
            Mnemonic::Inp => 901,
            Mnemonic::Out => 902,
        }
    }

    /// The table row of this mnemonic.
    pub fn descriptor(self) -> (r: Instruction)
        ensures
            r.name@ == mnemonic_name(self),
            r.decimal == base_encoding(self),
            r.parameter == takes_parameter(self),
    {
        let name: &'static str = match self {
            Mnemonic::Hlt => "hlt",
            Mnemonic::Dat => "dat",
            Mnemonic::Add => "add",
            Mnemonic::Sub => "sub",
            Mnemonic::Sta => "sta",
            Mnemonic::Lda => "lda",
            Mnemonic::Bra => "bra",
            Mnemonic::Brz => "brz",
            Mnemonic::Brp => "brp",
            Mnemonic::Inp => "inp",
            Mnemonic::Out => "out",
        };
        proof {
            reveal_strlit("hlt");
            reveal_strlit("dat");
            reveal_strlit("add");
            reveal_strlit("sub");
            reveal_strlit("sta");
            reveal_strlit("lda");
            reveal_strlit("bra");
            reveal_strlit("brz");
            reveal_strlit("brp");
            reveal_strlit("inp");
            reveal_strlit("out");
            assert(name@ =~= mnemonic_name(self));
        }
        Instruction { name, decimal: self.base(), parameter: !(self == Mnemonic::Hlt || self == Mnemonic::Inp || self == Mnemonic::Out) }
    }
}

/// The mnemonic spelled by the characters of `t`, if any.
pub fn lookup_mnemonic(t: &Vec<char>) -> (r: Option<Mnemonic>)
    ensures
        r == mnemonic_of(t@),
{
    if t.len() != 3 {
        proof {
            assert(forall|m: Mnemonic| mnemonic_name(m).len() == 3);
        }
        return None;
    }
    let (a, b, c) = (t[0], t[1], t[2]);
    let r = if a == 'h' && b == 'l' && c == 't' {
        Some(Mnemonic::Hlt)
    } else if a == 'd' && b == 'a' && c == 't' {
        Some(Mnemonic::Dat)
    } else if a == 'a' && b == 'd' && c == 'd' {
        Some(Mnemonic::Add)
    } else if a == 's' && b == 'u' && c == 'b' {
        Some(Mnemonic::Sub)
    } else if a == 's' && b == 't' && c == 'a' {
        Some(Mnemonic::Sta)
    } else if a == 'l' && b == 'd' && c == 'a' {
        Some(Mnemonic::Lda)
    } else if a == 'b' && b == 'r' && c == 'a' {
        Some(Mnemonic::Bra)
    } else if a == 'b' && b == 'r' && c == 'z' {
        Some(Mnemonic::Brz)
    } else if a == 'b' && b == 'r' && c == 'p' {
        Some(Mnemonic::Brp)
    } else if a == 'i' && b == 'n' && c == 'p' {
        Some(Mnemonic::Inp)
    } else if a == 'o' && b == 'u' && c == 't' {
        Some(Mnemonic::Out)
    } else {
        None
    };
    proof {
        assert(t@ =~= seq![a, b, c]);
    }
    r
}

/// The full instruction table, in the order hlt, dat, add, sub, sta, lda,
/// bra, brz, brp, inp, out.
pub fn instruction_list() -> (r: Vec<Instruction>)
    ensures
        r@.len() == 11,
        forall|i: int|
            0 <= i < 11 ==> {
                &&& (#[trigger] r@[i]).name@ == mnemonic_name(table_order(i))
                &&& r@[i].decimal == base_encoding(table_order(i))
                &&& r@[i].parameter == takes_parameter(table_order(i))
            },
{
    let order = [
        Mnemonic::Hlt,
        Mnemonic::Dat,
        Mnemonic::Add,
        Mnemonic::Sub,
        Mnemonic::Sta,
        Mnemonic::Lda,
        Mnemonic::Bra,
        Mnemonic::Brz,
        Mnemonic::Brp,
        Mnemonic::Inp,
        Mnemonic::Out,
    ];
    let mut r: Vec<Instruction> = Vec::new();
    let mut i: usize = 0;
    while i < 11
        invariant
            0 <= i <= 11,
            r@.len() == i,
            forall|k: int| 0 <= k < 11 ==> order@[k] == table_order(k),
            forall|k: int|
                0 <= k < i ==> {
                    &&& (#[trigger] r@[k]).name@ == mnemonic_name(table_order(k))
                    &&& r@[k].decimal == base_encoding(table_order(k))
                    &&& r@[k].parameter == takes_parameter(table_order(k))
                },
        decreases 11 - i,
    {
        let m = order[i];
        let d = m.descriptor();
        r.push(d);
        proof {
            assert(r@[i as int] == d);
        }
        i += 1;
    }
    r
}

/// The mnemonic at position `i` of the instruction table.
pub open spec fn table_order(i: int) -> Mnemonic {
    if i == 0 {
        Mnemonic::Hlt
    } else if i == 1 {
        Mnemonic::Dat
    } else if i == 2 {
        Mnemonic::Add
    } else if i == 3 {
        Mnemonic::Sub
    } else if i == 4 {
        Mnemonic::Sta
    } else if i == 5 {
        Mnemonic::Lda
    } else if i == 6 {
        Mnemonic::Bra
    } else if i == 7 {
        Mnemonic::Brz
    } else if i == 8 {
        Mnemonic::Brp
    } else if i == 9 {
        Mnemonic::Inp
    } else {
        Mnemonic::Out
    }
}

} // verus!
