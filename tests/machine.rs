use lmc::alu::{add, subtract};
use lmc::assembler::assemble;
use lmc::lmc::{Action, LittleManComputer, MachineError};

/// Runs `words` on a 100-cell machine, answering input requests from `inputs`,
/// and returns the outputs and the final action.
fn execute(words: Vec<usize>, inputs: &[&str]) -> (Vec<usize>, Result<Action, MachineError>) {
    let mut machine = LittleManComputer::new(100);
    machine.load_program(words);
    let mut outputs = Vec::new();
    let mut next_input = 0;
    loop {
        match machine.run(10_000) {
            Ok(Action::Output(v)) => outputs.push(v),
            Ok(Action::Input) => {
                machine.provide_input(inputs[next_input]).unwrap();
                next_input += 1;
            }
            Ok(Action::Continue) => panic!("program did not stop"),
            other => return (outputs, other),
        }
    }
}

#[test]
fn add_wraps_and_sets_overflow() {
    assert_eq!(add(998, 5), (3, true));
    assert_eq!(add(1, 1), (2, false));
    assert_eq!(add(999, 0), (999, false));
    assert_eq!(add(500, 500), (0, true));
}

#[test]
fn subtract_wraps_and_reports_sign() {
    assert_eq!(subtract(3, 5), (998, true));
    assert_eq!(subtract(5, 3), (2, false));
    assert_eq!(subtract(0, 1), (999, true));
    assert_eq!(subtract(0, 0), (0, false));
    assert_eq!(subtract(0, 999), (1, true));
}

#[test]
fn machine_add_sets_overflow() {
    // lda 10; add 11; hlt; data 998 and 5
    let mut words = vec![510, 111, 0];
    words.resize(10, 0);
    words.push(998);
    words.push(5);
    let mut machine = LittleManComputer::new(100);
    machine.load_program(words);
    assert_eq!(machine.run(100), Ok(Action::Halt { overflow: true, negative: false }));
    assert_eq!(machine.accumulator(), 3);
}

#[test]
fn machine_add_without_overflow() {
    let mut words = vec![510, 111, 0];
    words.resize(10, 0);
    words.push(1);
    words.push(1);
    let mut machine = LittleManComputer::new(100);
    machine.load_program(words);
    assert_eq!(machine.run(100), Ok(Action::Halt { overflow: false, negative: false }));
    assert_eq!(machine.accumulator(), 2);
}

#[test]
fn machine_subtract_sets_negative() {
    let mut words = vec![510, 211, 0];
    words.resize(10, 0);
    words.push(3);
    words.push(5);
    let mut machine = LittleManComputer::new(100);
    machine.load_program(words);
    assert_eq!(machine.run(100), Ok(Action::Halt { overflow: false, negative: true }));
    assert_eq!(machine.accumulator(), 998);
}

#[test]
fn machine_subtract_clears_negative() {
    let mut words = vec![510, 211, 0];
    words.resize(10, 0);
    words.push(5);
    words.push(3);
    let mut machine = LittleManComputer::new(100);
    machine.load_program(words);
    assert_eq!(machine.run(100), Ok(Action::Halt { overflow: false, negative: false }));
    assert_eq!(machine.accumulator(), 2);
}

#[test]
fn branch_lands_on_target() {
    let mut machine = LittleManComputer::new(100);
    machine.load_program(vec![607]);
    assert_eq!(machine.step(), Ok(Action::Continue));
    assert_eq!(machine.program_counter(), 7);
}

#[test]
fn branch_to_zero_wraps_through_999() {
    let mut machine = LittleManComputer::new(100);
    machine.load_program(vec![0, 600]);
    machine.load_program(vec![601]);
    // bra 1 then, at 1, bra 0: the counter goes to 999 and advances to 0
    assert_eq!(machine.step(), Ok(Action::Continue));
    assert_eq!(machine.program_counter(), 1);
    assert_eq!(machine.step(), Ok(Action::Continue));
    assert_eq!(machine.program_counter(), 0);
}

#[test]
fn branch_if_zero_and_if_positive() {
    // acc is 0: brz 5 jumps; at 5, brp 8 jumps (negative clear)
    let mut words = vec![705, 0, 0, 0, 0, 808, 0, 0, 0];
    words[8] = 0;
    let mut machine = LittleManComputer::new(100);
    machine.load_program(words);
    assert_eq!(machine.step(), Ok(Action::Continue));
    assert_eq!(machine.program_counter(), 5);
    assert_eq!(machine.step(), Ok(Action::Continue));
    assert_eq!(machine.program_counter(), 8);
}

#[test]
fn branch_if_positive_skips_after_negative_subtraction() {
    // lda 10; sub 11 (3 - 5 sets negative); brp 7 falls through; hlt
    let mut words = vec![510, 211, 807, 0];
    words.resize(10, 0);
    words.push(3);
    words.push(5);
    let mut machine = LittleManComputer::new(100);
    machine.load_program(words);
    assert_eq!(machine.run(3), Ok(Action::Continue));
    assert_eq!(machine.program_counter(), 3);
}

#[test]
fn store_and_load() {
    let mut machine = LittleManComputer::new(100);
    machine.load_program(vec![901, 350, 550, 902, 0]);
    assert_eq!(machine.run(10), Ok(Action::Input));
    machine.provide_input("42\n").unwrap();
    assert_eq!(machine.run(10), Ok(Action::Output(42)));
    assert_eq!(machine.memory()[50], 42);
}

#[test]
fn end_to_end_sum_of_two_inputs() {
    let words = assemble("inp\nsta 99\ninp\nadd 99\nout\nhlt\n").unwrap();
    let (outputs, last) = execute(words, &["3", "4"]);
    assert_eq!(outputs, vec![7]);
    assert_eq!(last, Ok(Action::Halt { overflow: false, negative: false }));
}

#[test]
fn halt_is_terminal() {
    let mut machine = LittleManComputer::new(100);
    machine.load_program(vec![0, 902]);
    assert_eq!(machine.step(), Ok(Action::Halt { overflow: false, negative: false }));
    assert!(machine.halted());
    let pc = machine.program_counter();
    assert_eq!(machine.run(50), Ok(Action::Halt { overflow: false, negative: false }));
    assert_eq!(machine.step(), Ok(Action::Halt { overflow: false, negative: false }));
    assert_eq!(machine.program_counter(), pc);
}

#[test]
fn invalid_opcode_is_reported() {
    let mut machine = LittleManComputer::new(100);
    machine.load_program(vec![400]);
    assert_eq!(machine.step(), Err(MachineError::InvalidOpcode(400)));
    let mut machine = LittleManComputer::new(100);
    machine.load_program(vec![903]);
    assert_eq!(machine.step(), Err(MachineError::InvalidOpcode(903)));
}

#[test]
fn address_outside_memory_is_reported() {
    let mut machine = LittleManComputer::new(10);
    machine.load_program(vec![150]);
    assert_eq!(machine.step(), Err(MachineError::AddressOutOfRange(50)));
    let mut machine = LittleManComputer::new(2);
    machine.load_program(vec![605]);
    assert_eq!(machine.step(), Ok(Action::Continue));
    assert_eq!(machine.step(), Err(MachineError::AddressOutOfRange(5)));
}

#[test]
fn invalid_input_is_refused() {
    let mut machine = LittleManComputer::new(100);
    machine.load_program(vec![901, 0]);
    assert_eq!(machine.run(5), Ok(Action::Input));
    assert_eq!(machine.provide_input("seven"), Err(MachineError::InvalidInput));
    assert_eq!(machine.provide_input("1000"), Err(MachineError::InvalidInput));
    assert_eq!(machine.provide_input(""), Err(MachineError::InvalidInput));
    assert_eq!(machine.program_counter(), 0);
    assert_eq!(machine.provide_input("  +12 \r\n"), Ok(()));
    assert_eq!(machine.accumulator(), 12);
    assert_eq!(machine.program_counter(), 1);
}

#[test]
fn new_machine_is_zeroed() {
    let machine = LittleManComputer::new(100);
    assert_eq!(machine.memory().len(), 100);
    assert!(machine.memory().iter().all(|&v| v == 0));
    assert_eq!(machine.accumulator(), 0);
    assert_eq!(machine.program_counter(), 0);
    assert!(!machine.overflow() && !machine.negative() && !machine.halted());
}

#[test]
fn running_out_of_fuel_continues() {
    let mut machine = LittleManComputer::new(100);
    machine.load_program(vec![600]);
    assert_eq!(machine.run(25), Ok(Action::Continue));
    assert!(!machine.halted());
}

#[test]
fn input_outside_an_input_instruction_is_refused() {
    let mut machine = LittleManComputer::new(100);
    machine.load_program(vec![902, 0]);
    assert_eq!(machine.provide_input("5"), Err(MachineError::NotAwaitingInput));
    assert_eq!(machine.accumulator(), 0);
    assert_eq!(machine.program_counter(), 0);
    let mut machine = LittleManComputer::new(100);
    machine.load_program(vec![0, 901]);
    assert_eq!(machine.step(), Ok(Action::Halt { overflow: false, negative: false }));
    assert_eq!(machine.provide_input("5"), Err(MachineError::NotAwaitingInput));
}
