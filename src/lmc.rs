use vstd::prelude::*;
use crate::alu::{wrapped_sum, wrapped_difference};
use crate::text::{parse_number, trimmed, chars_of, trim_chars, parse_digits};

verus! {

/// A decoded machine word.
#[derive(Clone, Copy, Debug, PartialEq, Eq, Structural)]
pub enum Operation {
    Add(usize),
    Subtract(usize),
    Store(usize),
    Load(usize),
    Branch(usize),
    BranchIfZero(usize),
    BranchIfPositive(usize),
    Input,
    Output,
    Halt,
}

/// What a cycle of the machine asks of its surroundings.
#[derive(Clone, Copy, Debug, PartialEq, Eq, Structural)]
pub enum Action {
    /// Nothing: the next cycle may run.
    Continue,
    /// An input instruction waits for a value; see `provide_input`.
    Input,
    /// An output instruction emitted this value.
    Output(usize),
    /// The machine has halted with these flags.
    Halt { overflow: bool, negative: bool },
}

/// Why the machine stopped with a fault.
#[derive(Clone, Copy, Debug, PartialEq, Eq, Structural)]
pub enum MachineError {
    /// An address outside memory was read or written.
    AddressOutOfRange(usize),
    /// A word that decodes to no operation was fetched.
    InvalidOpcode(usize),
    /// The text given to an input instruction is not a word.
    InvalidInput,
    /// Input was given while no input instruction was waiting for it.
    NotAwaitingInput,
}

/// The machine's state as a mathematical value.
pub struct MachineState {
    pub memory: Seq<usize>,
    pub accumulator: usize,
    pub program_counter: usize,
    pub current_instruction: usize,
    pub overflow: bool,
    pub negative: bool,
    pub halted: bool,
}

/// The registers, flags and memory of a Little Man Computer.
pub struct LittleManComputer {
    memory: Vec<usize>,
    accumulator: usize,
    program_counter: usize,
    current_instruction: usize,
    overflow: bool,
    negative: bool,
    halted: bool,
}

impl View for LittleManComputer {
    type V = MachineState;

    closed spec fn view(&self) -> MachineState {
        MachineState {
            memory: self.memory@,
            accumulator: self.accumulator,
            program_counter: self.program_counter,
            current_instruction: self.current_instruction,
            overflow: self.overflow,
            negative: self.negative,
            halted: self.halted,
        }
    }
}

/// Every register and memory cell holds a word in `[0, 999]`.
pub open spec fn well_formed(s: MachineState) -> bool {
    &&& s.accumulator <= 999
    &&& s.program_counter <= 999
    &&& s.current_instruction <= 999
    &&& forall|i: int| 0 <= i < s.memory.len() ==> #[trigger] s.memory[i] <= 999
}

/// The operation a word encodes: 000 halts, 901 reads, 902 writes; otherwise
/// the hundreds digit selects the operation and the last two digits its operand.
pub open spec fn decode(w: usize) -> Option<Operation> {
    let operand = (w % 100) as usize;
    if w == 0 {
        Some(Operation::Halt)
    } else if w == 901 {
        Some(Operation::Input)
    } else if w == 902 {
        Some(Operation::Output)
    } else if w > 999 {
        None
    } else if w / 100 == 1 {
        Some(Operation::Add(operand))
    } else if w / 100 == 2 {
        Some(Operation::Subtract(operand))
    } else if w / 100 == 3 {
        Some(Operation::Store(operand))
    } else if w / 100 == 5 {
        Some(Operation::Load(operand))
    } else if w / 100 == 6 {
        Some(Operation::Branch(operand))
    } else if w / 100 == 7 {
        Some(Operation::BranchIfZero(operand))
    } else if w / 100 == 8 {
        Some(Operation::BranchIfPositive(operand))
    } else {
        None
    }
}

/// Whether the address or target that `op` carries has at most two digits.
pub open spec fn operand_fits(op: Operation) -> bool {
    match op {
        Operation::Add(a) | Operation::Subtract(a) | Operation::Store(a) | Operation::Load(a)
        | Operation::Branch(a) | Operation::BranchIfZero(a) | Operation::BranchIfPositive(a) => a < 100,
        _ => true,
    }
}

/// The program counter after the post-execute advance.
pub open spec fn advanced(pc: usize) -> usize {
    ((pc + 1) % 1000) as usize
}

/// The program counter a branch to `target` sets, one before the target.
pub open spec fn before(target: usize) -> usize {
    ((target - 1) % 1000) as usize
}

/// Executes a decoded operation other than input, before the advance.
pub open spec fn execute(s: MachineState, op: Operation) -> Result<MachineState, MachineError> {
    let n = s.memory.len();
    match op {
        Operation::Add(a) => if a < n {
            let (v, o) = wrapped_sum(s.accumulator as int, s.memory[a as int] as int);
            Ok(MachineState { accumulator: v as usize, overflow: o, ..s })
        } else {
            Err(MachineError::AddressOutOfRange(a))
        },
        Operation::Subtract(a) => if a < n {
            let (v, neg) = wrapped_difference(s.accumulator as int, s.memory[a as int] as int);
            Ok(MachineState { accumulator: v as usize, negative: neg, ..s })
        } else {
            Err(MachineError::AddressOutOfRange(a))
        },
        Operation::Store(a) => if a < n {
            Ok(MachineState { memory: s.memory.update(a as int, s.accumulator), ..s })
        } else {
            Err(MachineError::AddressOutOfRange(a))
        },
        Operation::Load(a) => if a < n {
            Ok(MachineState { accumulator: s.memory[a as int], ..s })
        } else {
            Err(MachineError::AddressOutOfRange(a))
        },
        Operation::Branch(t) => Ok(MachineState { program_counter: before(t), ..s }),
        Operation::BranchIfZero(t) => if s.accumulator == 0 {
            Ok(MachineState { program_counter: before(t), ..s })
        } else {
            Ok(s)
        },
        Operation::BranchIfPositive(t) => if !s.negative {
            Ok(MachineState { program_counter: before(t), ..s })
        } else {
            Ok(s)
        },
        Operation::Halt => Ok(MachineState { halted: true, ..s }),
        Operation::Input | Operation::Output => Ok(s),
    }
}

/// What an executed operation reports.
pub open spec fn report(s: MachineState, op: Operation) -> Action {
    match op {
        Operation::Output => Action::Output(s.accumulator),
        Operation::Halt => Action::Halt { overflow: s.overflow, negative: s.negative },
        _ => Action::Continue,
    }
}

/// One fetch-decode-execute-advance cycle. A halted machine stays as it is;
/// an input instruction stops after the fetch and waits for a value.
pub open spec fn cycle(s: MachineState) -> (MachineState, Result<Action, MachineError>) {
    if s.halted {
        (s, Ok(Action::Halt { overflow: s.overflow, negative: s.negative }))
    } else if s.program_counter >= s.memory.len() {
        (s, Err(MachineError::AddressOutOfRange(s.program_counter)))
    } else {
        let w = s.memory[s.program_counter as int];
        let f = MachineState { current_instruction: w, ..s };
        match decode(w) {
            None => (f, Err(MachineError::InvalidOpcode(w))),
            Some(Operation::Input) => (f, Ok(Action::Input)),
            Some(op) => match execute(f, op) {
                Err(e) => (f, Err(e)),
                Ok(e) => (
                    MachineState { program_counter: advanced(e.program_counter), ..e },
                    Ok(report(e, op)),
                ),
            },
        }
    }
}

/// Up to `fuel` cycles, stopping at the first that asks for something or fails.
pub open spec fn run_cycles(s: MachineState, fuel: nat) -> (MachineState, Result<Action, MachineError>)
    decreases fuel,
{
    if fuel == 0 {
        (s, Ok(Action::Continue))
    } else {
        let (t, r) = cycle(s);
        if r == Ok::<Action, MachineError>(Action::Continue) {
            run_cycles(t, (fuel - 1) as nat)
        } else {
            (t, r)
        }
    }
}

/// The state a fresh machine of `size` cells starts in.
pub open spec fn initial(size: nat) -> MachineState {
    MachineState {
        memory: Seq::new(size, |i: int| 0usize),
        accumulator: 0,
        program_counter: 0,
        current_instruction: 0,
        overflow: false,
        negative: false,
        halted: false,
    }
}

impl LittleManComputer {
    /// A machine with `size` zeroed cells, registers at zero and flags clear.
    pub fn new(size: usize) -> (r: Self)
        ensures
            r@ == initial(size as nat),
            well_formed(r@),
    {
        let mut memory: Vec<usize> = Vec::new();
        let mut i: usize = 0;
        while i < size
            invariant
                i <= size,
                memory@ == Seq::new(i as nat, |k: int| 0usize),
            decreases size - i,
        {
            memory.push(0);
            i += 1;
            proof {
                assert(memory@ =~= Seq::new(i as nat, |k: int| 0usize));
            }
        }
        LittleManComputer {
            memory,
            accumulator: 0,
            program_counter: 0,
            current_instruction: 0,
            overflow: false,
            negative: false,
            halted: false,
        }
    }

    /// Writes `instructions` into memory from address 0; the other cells keep
    /// their values.
    pub fn load_program(&mut self, instructions: Vec<usize>)
        requires
            well_formed(old(self)@),
            instructions@.len() <= old(self)@.memory.len(),
            forall|i: int| 0 <= i < instructions@.len() ==> #[trigger] instructions@[i] <= 999,
        ensures
            well_formed(final(self)@),
            final(self)@ == (MachineState {
                memory: Seq::new(
                    old(self)@.memory.len(),
                    |i: int|
                        if i < instructions@.len() {
                            instructions@[i]
                        } else {
                            old(self)@.memory[i]
                        },
                ),
                ..old(self)@
            }),
    {
        let mut i: usize = 0;
        while i < instructions.len()
            invariant
                i <= instructions@.len() <= self.memory@.len(),
                self.memory@.len() == old(self)@.memory.len(),
                well_formed(self@),
                self@ == (MachineState { memory: self@.memory, ..old(self)@ }),
                forall|k: int| 0 <= k < instructions@.len() ==> #[trigger] instructions@[k] <= 999,
                forall|k: int|
                    0 <= k < self.memory@.len() ==> #[trigger] self.memory@[k] == if k < i {
                        instructions@[k]
                    } else {
                        old(self)@.memory[k]
                    },
            decreases instructions@.len() - i,
        {
            self.set(i, instructions[i]);
            i += 1;
        }
        proof {
            assert(self@.memory =~= Seq::new(
                old(self)@.memory.len(),
                |k: int|
                    if k < instructions@.len() {
                        instructions@[k]
                    } else {
                        old(self)@.memory[k]
                    },
            ));
        }
    }

    /// Runs up to `fuel` cycles and stops early at the first one that asks for
    /// input, emits output, halts or fails; `Action::Continue` when the fuel
    /// ran out first.
    pub fn run(&mut self, fuel: usize) -> (r: Result<Action, MachineError>)
        requires
            well_formed(old(self)@),
        ensures
            well_formed(final(self)@),
            (final(self)@, r) == run_cycles(old(self)@, fuel as nat),
            r matches Ok(Action::Halt { overflow, negative }) ==> final(self)@.halted
                && final(self)@.overflow == overflow && final(self)@.negative == negative,
            r == Ok::<Action, MachineError>(Action::Input) ==> awaiting_input(final(self)@),
    {
        proof {
            lemma_run_cycles_stops(old(self)@, fuel as nat);
        }
        let mut left: usize = fuel;
        while left > 0
            invariant
                well_formed(self@),
                left <= fuel,
                run_cycles(self@, left as nat) == run_cycles(old(self)@, fuel as nat),
            decreases left,
        {
            let r = self.step();
            left -= 1;
            match r {
                Ok(Action::Continue) => {},
                _ => {
                    return r;
                },
            }
        }
        Ok(Action::Continue)
    }

    /// One fetch-decode-execute-advance cycle.
    pub fn step(&mut self) -> (r: Result<Action, MachineError>)
        requires
            well_formed(old(self)@),
        ensures
            well_formed(final(self)@),
            (final(self)@, r) == cycle(old(self)@),
            old(self)@.halted ==> final(self)@ == old(self)@,
            r matches Ok(Action::Halt { overflow, negative }) ==> final(self)@.halted
                && final(self)@.overflow == overflow && final(self)@.negative == negative,
            r == Ok::<Action, MachineError>(Action::Input) ==> awaiting_input(final(self)@),
    {
        proof {
            lemma_cycle_stops(old(self)@);
        }
        if self.halted {
            return Ok(Action::Halt { overflow: self.overflow, negative: self.negative });
        }
        if self.program_counter >= self.memory.len() {
            return Err(MachineError::AddressOutOfRange(self.program_counter));
        }
        self.fetch_instruction(self.program_counter);
        let w = self.current_instruction;
        let op = match self.decode_instruction(w) {
            Some(op) => op,
            None => {
                return Err(MachineError::InvalidOpcode(w));
            },
        };
        if op == Operation::Input {
            return Ok(Action::Input);
        }
        let r = self.execute_instruction(op);
        match r {
            Ok(_) => {
                self.program_counter = crate::alu::add(self.program_counter, 1).0;
            },
            Err(_) => {},
        }
        r
    }

    /// Completes a waiting input instruction with the value that `line` spells
    /// (surrounding whitespace ignored), then advances. Nothing changes when no
    /// input instruction waits, or when the text is not a word in `[0, 999]`.
    pub fn provide_input(&mut self, line: &str) -> (r: Result<(), MachineError>)
        requires
            well_formed(old(self)@),
        ensures
            well_formed(final(self)@),
            !awaiting_input(old(self)@) ==> r == Err::<(), MachineError>(MachineError::NotAwaitingInput)
                && final(self)@ == old(self)@,
            awaiting_input(old(self)@) ==> match input_value(line@) {
                Some(v) => r is Ok && final(self)@ == (MachineState {
                    accumulator: v as usize,
                    current_instruction: 901,
                    program_counter: advanced(old(self)@.program_counter),
                    ..old(self)@
                }),
                None => r == Err::<(), MachineError>(MachineError::InvalidInput) && final(self)@
                    == old(self)@,
            },
    {
        if self.halted || self.program_counter >= self.memory.len() || self.memory[self.program_counter] != 901 {
            return Err(MachineError::NotAwaitingInput);
        }
        let cs = chars_of(line);
        let t = trim_chars(&cs);
        match parse_digits(&t) {
            Some(v) => {
                if v > 999 {
                    return Err(MachineError::InvalidInput);
                }
                self.current_instruction = 901;
                self.accumulator = v;
                self.program_counter = crate::alu::add(self.program_counter, 1).0;
                Ok(())
            },
            None => Err(MachineError::InvalidInput),
        }
    }

    /// The memory cells, in address order.
    pub fn memory(&self) -> (r: &Vec<usize>)
        ensures
            r@ == self@.memory,
    {
        &self.memory
    }

    /// The accumulator.
    pub fn accumulator(&self) -> (r: usize)
        ensures
            r == self@.accumulator,
    {
        self.accumulator
    }

    /// The program counter.
    pub fn program_counter(&self) -> (r: usize)
        ensures
            r == self@.program_counter,
    {
        self.program_counter
    }

    /// The overflow flag.
    pub fn overflow(&self) -> (r: bool)
        ensures
            r == self@.overflow,
    {
        self.overflow
    }

    /// The negative flag.
    pub fn negative(&self) -> (r: bool)
        ensures
            r == self@.negative,
    {
        self.negative
    }

    /// Whether the machine has halted.
    pub fn halted(&self) -> (r: bool)
        ensures
            r == self@.halted,
    {
        self.halted
    }

    fn fetch_instruction(&mut self, address: usize)
        requires
            well_formed(old(self)@),
            address < old(self)@.memory.len(),
        ensures
            well_formed(final(self)@),
            final(self)@ == (MachineState {
                current_instruction: old(self)@.memory[address as int],
                ..old(self)@
            }),
    {
        self.current_instruction = self.get(address);
    }

    fn decode_instruction(&self, instruction: usize) -> (r: Option<Operation>)
        ensures
            r == decode(instruction),
            r matches Some(op) ==> operand_fits(op),
    {
        if instruction == 0 {
            return Some(Operation::Halt);
        } else if instruction == 901 {
            return Some(Operation::Input);
        } else if instruction == 902 {
            return Some(Operation::Output);
        } else if instruction > 999 {
            return None;
        }
        let operand = instruction % 100;
        let opcode = instruction / 100;
        if opcode == 1 {
            Some(Operation::Add(operand))
        } else if opcode == 2 {
            Some(Operation::Subtract(operand))
        } else if opcode == 3 {
            Some(Operation::Store(operand))
        } else if opcode == 5 {
            Some(Operation::Load(operand))
        } else if opcode == 6 {
            Some(Operation::Branch(operand))
        } else if opcode == 7 {
            Some(Operation::BranchIfZero(operand))
        } else if opcode == 8 {
            Some(Operation::BranchIfPositive(operand))
        } else {
            None
        }
    }

    fn execute_instruction(&mut self, op: Operation) -> (r: Result<Action, MachineError>)
        requires
            well_formed(old(self)@),
            op != Operation::Input,
            operand_fits(op),
        ensures
            well_formed(final(self)@),
            match execute(old(self)@, op) {
                Ok(s) => final(self)@ == s && r == Ok::<Action, MachineError>(report(old(self)@, op)),
                Err(e) => final(self)@ == old(self)@ && r == Err::<Action, MachineError>(e),
            },
    {
        match op {
            Operation::Halt => {
                self.halt();
                Ok(Action::Halt { overflow: self.overflow, negative: self.negative })
            },
            Operation::Add(a) => {
                if a >= self.memory.len() {
                    return Err(MachineError::AddressOutOfRange(a));
                }
                self.add(a);
                Ok(Action::Continue)
            },
            Operation::Subtract(a) => {
                if a >= self.memory.len() {
                    return Err(MachineError::AddressOutOfRange(a));
                }
                self.subtract(a);
                Ok(Action::Continue)
            },
            Operation::Store(a) => {
                if a >= self.memory.len() {
                    return Err(MachineError::AddressOutOfRange(a));
                }
                self.store(a);
                Ok(Action::Continue)
            },
            Operation::Load(a) => {
                if a >= self.memory.len() {
                    return Err(MachineError::AddressOutOfRange(a));
                }
                self.load(a);
                Ok(Action::Continue)
            },
            Operation::Branch(t) => {
                self.branch(t);
                Ok(Action::Continue)
            },
            Operation::BranchIfZero(t) => {
                self.branch_if_zero(t);
                Ok(Action::Continue)
            },
            Operation::BranchIfPositive(t) => {
                self.branch_if_positive(t);
                Ok(Action::Continue)
            },
            Operation::Output => Ok(self.output()),
            Operation::Input => Ok(Action::Input),
        }
    }

    fn set(&mut self, address: usize, value: usize)
        requires
            well_formed(old(self)@),
            address < old(self)@.memory.len(),
            value <= 999,
        ensures
            well_formed(final(self)@),
            final(self)@ == (MachineState {
                memory: old(self)@.memory.update(address as int, value),
                ..old(self)@
            }),
    {
        self.memory.set(address, value);
    }

    fn get(&self, address: usize) -> (r: usize)
        requires
            address < self@.memory.len(),
        ensures
            r == self@.memory[address as int],
    {
        self.memory[address]
    }

    fn halt(&mut self)
        ensures
            final(self)@ == (MachineState { halted: true, ..old(self)@ }),
    {
        self.halted = true;
    }

    fn add(&mut self, address: usize)
        requires
            well_formed(old(self)@),
            address < old(self)@.memory.len(),
        ensures
            well_formed(final(self)@),
            execute(old(self)@, Operation::Add(address)) == Ok::<MachineState, MachineError>(final(self)@),
    {
        let (res, overflow) = crate::alu::add(self.accumulator, self.get(address));
        self.overflow = overflow;
        self.accumulator = res;
    }

    fn subtract(&mut self, address: usize)
        requires
            well_formed(old(self)@),
            address < old(self)@.memory.len(),
        ensures
            well_formed(final(self)@),
            execute(old(self)@, Operation::Subtract(address)) == Ok::<MachineState, MachineError>(final(self)@),
    {
        let m = self.get(address);
        let (res, negative) = crate::alu::subtract(self.accumulator as i16, m as i16);
        self.negative = negative;
        self.accumulator = res;
    }

    fn store(&mut self, address: usize)
        requires
            well_formed(old(self)@),
            address < old(self)@.memory.len(),
        ensures
            well_formed(final(self)@),
            execute(old(self)@, Operation::Store(address)) == Ok::<MachineState, MachineError>(final(self)@),
    {
        self.set(address, self.accumulator);
    }

    fn load(&mut self, address: usize)
        requires
            well_formed(old(self)@),
            address < old(self)@.memory.len(),
        ensures
            well_formed(final(self)@),
            execute(old(self)@, Operation::Load(address)) == Ok::<MachineState, MachineError>(final(self)@),
    {
        self.accumulator = self.get(address);
    }

    fn branch(&mut self, target: usize)
        requires
            well_formed(old(self)@),
            target < 100,
        ensures
            well_formed(final(self)@),
            final(self)@ == (MachineState { program_counter: before(target), ..old(self)@ }),
    {
        self.program_counter = crate::alu::subtract(target as i16, 1).0;
    }

    fn branch_if_zero(&mut self, target: usize)
        requires
            well_formed(old(self)@),
            target < 100,
        ensures
            well_formed(final(self)@),
            execute(old(self)@, Operation::BranchIfZero(target)) == Ok::<MachineState, MachineError>(final(self)@),
    {
        if self.accumulator == 0 {
            self.branch(target);
        }
    }

    fn branch_if_positive(&mut self, target: usize)
        requires
            well_formed(old(self)@),
            target < 100,
        ensures
            well_formed(final(self)@),
            execute(old(self)@, Operation::BranchIfPositive(target)) == Ok::<MachineState, MachineError>(final(self)@),
    {
        if !self.negative {
            self.branch(target);
        }
    }

    fn output(&self) -> (r: Action)
        ensures
            r == Action::Output(self@.accumulator),
    {
        Action::Output(self.accumulator)
    }
}

/// A branch to `target` leaves the program counter, after the post-execute
/// advance, exactly at `target`, so the next fetch reads that address.
pub proof fn lemma_branch_lands(s: MachineState, target: usize)
    requires
        well_formed(s),
        !s.halted,
        s.program_counter < s.memory.len(),
        target < 100,
        s.memory[s.program_counter as int] == 600 + target,
    ensures
        cycle(s).1 == Ok::<Action, MachineError>(Action::Continue),
        cycle(s).0.program_counter == target,
{
    let w = s.memory[s.program_counter as int];
    assert(w / 100 == 6 && w % 100 == target) by (nonlinear_arith)
        requires w == 600 + target, target < 100;
    assert(decode(w) == Some(Operation::Branch(target)));
}

/// Once a machine has halted no cycle changes it: every run leaves it as it
/// is and reports the halt with its flags.
pub proof fn lemma_halt_is_terminal(s: MachineState, fuel: nat)
    requires
        s.halted,
        fuel > 0,
    ensures
        cycle(s) == (s, Ok::<Action, MachineError>(Action::Halt { overflow: s.overflow, negative: s.negative })),
        run_cycles(s, fuel) == (s, Ok::<Action, MachineError>(Action::Halt { overflow: s.overflow, negative: s.negative })),
{
}

/// Whether the machine stands at an input instruction that waits for a value:
/// it runs, and the word at the program counter is 901.
pub open spec fn awaiting_input(s: MachineState) -> bool {
    &&& !s.halted
    &&& s.program_counter < s.memory.len()
    &&& s.memory[s.program_counter as int] == 901
}

proof fn lemma_cycle_stops(s: MachineState)
    ensures
        cycle(s).1 matches Ok(Action::Halt { overflow, negative }) ==> cycle(s).0.halted
            && cycle(s).0.overflow == overflow && cycle(s).0.negative == negative,
        cycle(s).1 == Ok::<Action, MachineError>(Action::Input) ==> awaiting_input(cycle(s).0),
{
    if !s.halted && s.program_counter < s.memory.len() {
        let w = s.memory[s.program_counter as int];
        if decode(w) == Some(Operation::Input) {
            assert(w == 901);
        }
    }
}

/// A run that reports a halt leaves the machine halted with the flags it
/// reports, and a run that asks for input leaves it waiting at an input
/// instruction.
pub proof fn lemma_run_cycles_stops(s: MachineState, fuel: nat)
    ensures
        run_cycles(s, fuel).1 matches Ok(Action::Halt { overflow, negative }) ==> run_cycles(s, fuel).0.halted
            && run_cycles(s, fuel).0.overflow == overflow && run_cycles(s, fuel).0.negative == negative,
        run_cycles(s, fuel).1 == Ok::<Action, MachineError>(Action::Input) ==> awaiting_input(run_cycles(s, fuel).0),
    decreases fuel,
{
    if fuel > 0 {
        lemma_cycle_stops(s);
        lemma_run_cycles_stops(cycle(s).0, (fuel - 1) as nat);
    }
}

/// The value an input line spells: surrounding whitespace is ignored, and the
/// rest must be a decimal number no greater than 999.
pub open spec fn input_value(line: Seq<char>) -> Option<nat> {
    match parse_number(trimmed(line)) {
        Some(v) => if v <= 999 {
            Some(v)
        } else {
            None
        },
        None => None,
    }
}

} // verus!
