use vm16::cpu::{ExecutionError, CPU};
use vm16::isa::{ACC, ADD_REG_REG, END, MOV_LIT_R1, MOV_LIT_R2, MOV_LIT_REG, R1, R2};
use vm16::memory::Memory;

#[test]
fn cpu_register_test() {
    let mut cpu = CPU::new(0x40);

    cpu.set_register("r1", 0x8574).unwrap();
    cpu.set_register("r6", 0x20).unwrap();

    assert_eq!(cpu.get_register("r1").unwrap(), 0x8574);
}

#[test]
fn cpu_mov_add_test() {
    let mut cpu = CPU::new(0x40);

    let instructions = [
        MOV_LIT_REG, 0xFF, 0xFF, R1,  // move 0xFFFF in r1 (16 bit)
        MOV_LIT_REG, 0x00, 0x02, R2,  // move 0x0002 in r2 (16 bit)
        MOV_LIT_REG, 0x00, 0x4F, ACC, // fill ACC with non-null value
        ADD_REG_REG, R1, R2,          // add r1 and r2
        END,                          // stop the program
    ];

    cpu.set_instruction(&instructions);
    while cpu.step() {}
    assert_eq!(cpu.get_register("r1").unwrap(), 0xFFFF);
    assert_eq!(cpu.get_register("r2").unwrap(), 0x02);
    assert_eq!(cpu.get_register("acc").unwrap(), 0x01);
}

#[test]
fn memory_test() {
    let mut m = Memory::new(0x40);
    m.set_memory_at_u8(0x01, 0x01).unwrap();
    m.set_memory_at_u8(0x05, 0x20).unwrap();

    assert_eq!(m.get_memory_at_u8(0x04).unwrap(), 0x00);
    assert_eq!(m.get_memory_at_u8(0x01).unwrap(), 0x01);
    assert_eq!(m.get_memory_at_u8(0x05).unwrap(), 0x20);

    assert_eq!(m.get_memory_at_u8(0x40).is_err(), true);
}

#[test]
fn memory_bounds() {
    let mut m = Memory::new(8);
    // 8-bit access succeeds on [0, 8) and fails at 8 and past it
    assert!(m.get_memory_at_u8(0).is_ok());
    assert!(m.get_memory_at_u8(7).is_ok());
    assert!(m.get_memory_at_u8(8).is_err());
    assert!(m.set_memory_at_u8(7, 1).is_ok());
    assert!(m.set_memory_at_u8(8, 1).is_err());
    assert!(m.set_memory_at_u8(usize::MAX, 1).is_err());
    // a 16-bit access at the last byte crosses the end
    assert!(m.get_memory_at_u16(6).is_ok());
    assert!(m.get_memory_at_u16(7).is_err());
    assert!(m.set_memory_at_u16(6, 0xABCD).is_ok());
    assert!(m.set_memory_at_u16(7, 0xABCD).is_err());
    assert_eq!(m.get_memory_at_u16(6).unwrap(), 0xABCD);
    // the pair is stored high byte first
    assert_eq!(m.get_memory_at_u8(6).unwrap(), 0xAB);
    assert_eq!(m.get_memory_at_u8(7).unwrap(), 0xCD);
}

#[test]
fn register_round_trip_all_names() {
    let names = ["ip", "acc", "r1", "r2", "r3", "r4", "r5", "r6", "r7", "r8"];
    let mut cpu = CPU::new(4);
    for (i, name) in names.iter().enumerate() {
        let v = 0x1111u16.wrapping_mul(i as u16 + 1);
        cpu.set_register(name, v).unwrap();
        assert_eq!(cpu.get_register(name).unwrap(), v);
    }
}

#[test]
fn fetch_advances_ip() {
    let mut cpu = CPU::new(0x10);
    cpu.set_instruction(&[0xAB, 0xCD, 0xEF]);
    assert_eq!(cpu.get_register("ip").unwrap(), 0);
    assert_eq!(cpu.fetch_u8().unwrap(), 0xAB);
    assert_eq!(cpu.get_register("ip").unwrap(), 1);
    assert_eq!(cpu.fetch_u16().unwrap(), 0xCDEF);
    assert_eq!(cpu.get_register("ip").unwrap(), 3);
}

#[test]
fn fetch_out_of_bounds_leaves_ip() {
    let mut cpu = CPU::new(2);
    cpu.set_register("ip", 2).unwrap();
    assert!(cpu.fetch_u8().is_err());
    assert_eq!(cpu.get_register("ip").unwrap(), 2);
    cpu.set_register("ip", 1).unwrap();
    assert!(cpu.fetch_u16().is_err());
    assert_eq!(cpu.get_register("ip").unwrap(), 1);
}

#[test]
fn end_to_end_halts_with_end_of_execution() {
    let mut cpu = CPU::new(0x40);
    let instructions = [
        MOV_LIT_REG, 0xFF, 0xFF, R1,
        MOV_LIT_REG, 0x00, 0x02, R2,
        MOV_LIT_REG, 0x00, 0x4F, ACC,
        ADD_REG_REG, R1, R2,
        END,
    ];
    cpu.set_instruction(&instructions);
    let halt = loop {
        let opcode = match cpu.fetch_u8() {
            Ok(op) => op,
            Err(_) => break ExecutionError::BadMemoryAccess,
        };
        match cpu.execute(opcode) {
            Ok(()) => continue,
            Err(reason) => break reason,
        }
    };
    assert_eq!(halt, ExecutionError::EndOfExecution);
    assert_eq!(cpu.get_register("r1").unwrap(), 0xFFFF);
    assert_eq!(cpu.get_register("r2").unwrap(), 0x0002);
    assert_eq!(cpu.get_register("acc").unwrap(), 0x0001);
}

#[test]
fn overflow_wraps_in_acc() {
    let mut cpu = CPU::new(0x10);
    cpu.set_register("r1", 0xFFFF).unwrap();
    cpu.set_register("r2", 0x0002).unwrap();
    cpu.set_instruction(&[ADD_REG_REG, R1, R2, END]);
    while cpu.step() {}
    assert_eq!(cpu.get_register("acc").unwrap(), 0x0001);
}

#[test]
fn unknown_opcode_halts_and_keeps_registers() {
    let mut cpu = CPU::new(0x10);
    cpu.set_instruction(&[0xEE]);
    let opcode = cpu.fetch_u8().unwrap();
    assert_eq!(cpu.execute(opcode), Err(ExecutionError::UnexpectedInstruction));
    assert_eq!(cpu.get_register("ip").unwrap(), 1);
    for name in ["acc", "r1", "r2", "r3", "r4", "r5", "r6", "r7", "r8"] {
        assert_eq!(cpu.get_register(name).unwrap(), 0);
    }
    let mut cpu2 = CPU::new(0x10);
    cpu2.set_instruction(&[0xEE]);
    assert!(!cpu2.step());
}

#[test]
fn mov_lit_r1_and_r2_opcodes() {
    let mut cpu = CPU::new(0x10);
    cpu.set_instruction(&[MOV_LIT_R1, 0x12, 0x34, MOV_LIT_R2, 0x56, 0x78, END]);
    while cpu.step() {}
    assert_eq!(cpu.get_register("r1").unwrap(), 0x1234);
    assert_eq!(cpu.get_register("r2").unwrap(), 0x5678);
}

#[test]
fn bad_register_id_halts_with_bad_memory_access() {
    let mut cpu = CPU::new(0x10);
    cpu.set_instruction(&[MOV_LIT_REG, 0x00, 0x01, 0xFF]);
    let opcode = cpu.fetch_u8().unwrap();
    assert_eq!(cpu.execute(opcode), Err(ExecutionError::BadMemoryAccess));
    let mut cpu2 = CPU::new(0x10);
    cpu2.set_instruction(&[ADD_REG_REG, 0x0A, R1, END]);
    assert!(!cpu2.step());
}

#[test]
fn mov_into_ip_jumps() {
    let mut cpu = CPU::new(0x10);
    // writing the instruction pointer transfers control: the 0xEE byte at
    // offset 4 is skipped and the run ends at the END at offset 5
    cpu.set_instruction(&[MOV_LIT_REG, 0x00, 0x05, 0x00, 0xEE, END]);
    assert!(cpu.step());
    assert_eq!(cpu.get_register("ip").unwrap(), 5);
    let opcode = cpu.fetch_u8().unwrap();
    assert_eq!(cpu.execute(opcode), Err(ExecutionError::EndOfExecution));
}

#[test]
fn load_twice_runs_identically() {
    let program = [MOV_LIT_REG, 0x00, 0x2A, R1, ADD_REG_REG, R1, R1, END];

    let mut once = CPU::new(0x20);
    once.set_instruction(&program);
    while once.step() {}

    let mut twice = CPU::new(0x20);
    twice.set_instruction(&program);
    twice.set_instruction(&program);
    while twice.step() {}

    for name in ["ip", "acc", "r1", "r2", "r3", "r4", "r5", "r6", "r7", "r8"] {
        assert_eq!(once.get_register(name).unwrap(), twice.get_register(name).unwrap());
    }
    assert_eq!(once.get_register("acc").unwrap(), 0x54);
}

#[test]
fn load_truncates_past_memory_end() {
    let mut cpu = CPU::new(2);
    cpu.set_instruction(&[1, 2, 3, 4]);
    assert_eq!(cpu.fetch_u16().unwrap(), 0x0102);
    assert!(cpu.fetch_u8().is_err());
}
