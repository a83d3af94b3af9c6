use spacydo::{
    assemble, disassemble, last_stack, pop_stack, push_stack, to_mem_slice_val, to_u32_val,
    value_eq, Decode, Encode, InstructionsPool, StringPool, Task, TaskStatus, VMError, FALSE_VAL,
    MAX_STACK_SIZE, TRUE_VAL, VM,
};

// The bounded operand stack: pushes beyond the capacity fail with
// StackOverflow, pops and peeks on empty fail with StackUnderflow.
#[test]
fn operand_stack_bounds() {
    let mut stack: Vec<u64> = vec![0; MAX_STACK_SIZE - 1];
    push_stack(&mut stack, 7).unwrap();
    assert_eq!(stack.len(), MAX_STACK_SIZE);
    assert!(matches!(
        push_stack(&mut stack, 8),
        Err(VMError::StackOverflow)
    ));
    assert_eq!(*last_stack(&stack).unwrap(), 7);
    assert_eq!(pop_stack(&mut stack).unwrap(), 7);

    let mut empty: Vec<u64> = Vec::new();
    assert!(matches!(pop_stack(&mut empty), Err(VMError::StackUnderflow)));
    assert!(matches!(last_stack(&empty), Err(VMError::StackUnderflow)));
}

// Tagged representation: exact bit patterns of the quiet-NaN boxing.
#[test]
fn tagged_value_bit_patterns() {
    assert_eq!(FALSE_VAL, 0x7ffc000000000002);
    assert_eq!(TRUE_VAL, 0x7ffc000000000003);
    assert_eq!(to_u32_val(0), 0x7ffc000000000006);
    assert_eq!(to_u32_val(1), 0x7ffc000000000006 | (1 << 18));
    let ms = to_mem_slice_val(3, 5).unwrap();
    assert_eq!(ms, 0xfffc000000000000u64 | (3 << 25) | 5);
    assert!(matches!(
        to_mem_slice_val(1 << 25, 0),
        Err(VMError::InvalidType)
    ));
}

#[test]
fn value_eq_compares_payloads_and_tags() {
    assert_eq!(value_eq(to_u32_val(7), to_u32_val(7)).unwrap(), TRUE_VAL);
    assert_eq!(value_eq(to_u32_val(7), to_u32_val(8)).unwrap(), FALSE_VAL);
    assert_eq!(value_eq(TRUE_VAL, TRUE_VAL).unwrap(), TRUE_VAL);
    // TRUE and FALSE carry different tags, so comparing them is a mismatch
    assert!(matches!(
        value_eq(TRUE_VAL, FALSE_VAL),
        Err(VMError::TypeMismatch)
    ));
    assert!(matches!(
        value_eq(to_u32_val(7), TRUE_VAL),
        Err(VMError::TypeMismatch)
    ));
    assert!(matches!(value_eq(1, 2), Err(VMError::InvalidType)));
}

// Interning agreement on concrete values: equal strings share an index,
// different strings do not.
#[test]
fn interning_agreement_concrete() {
    let mut pool = StringPool::new();
    let a1 = pool.intern_string("alpha".to_string());
    let b = pool.intern_string("beta".to_string());
    let a2 = pool.intern_string("alpha".to_string());
    assert_eq!(a1, a2);
    assert_ne!(a1, b);
    assert_eq!(pool.resolve(a1 as usize).unwrap(), "alpha");
    assert_eq!(pool.resolve(b as usize).unwrap(), "beta");
    assert!(matches!(
        pool.resolve(99),
        Err(VMError::InvalidStringIndex(99))
    ));
}

// The variable-width integer encoding picks the smallest of 1, 2 or 4
// little-endian bytes, with the width as a leading byte.
#[test]
fn varint_encoding_exact_bytes() {
    let mut out: Vec<u8> = Vec::new();
    7u32.encode(&mut out).unwrap();
    assert_eq!(out, vec![1, 7]);

    let mut out: Vec<u8> = Vec::new();
    300u32.encode(&mut out).unwrap();
    assert_eq!(out, vec![2, 44, 1]);

    let mut out: Vec<u8> = Vec::new();
    0x01020304u32.encode(&mut out).unwrap();
    assert_eq!(out, vec![4, 4, 3, 2, 1]);

    let (v, p) = u32::decode(&[4, 4, 3, 2, 1], 0).unwrap();
    assert_eq!((v, p), (0x01020304, 5));
}

// A string longer than 65,535 bytes is refused by the storage format.
#[test]
fn string_too_big_for_storage() {
    let long = "x".repeat(70_000);
    let mut out: Vec<u8> = Vec::new();
    assert!(matches!(
        long.encode(&mut out),
        Err(VMError::StorageSizeTooBig)
    ));
    assert!(out.is_empty());
}

// Persistence idempotence on a concrete image: encode then decode gives the
// same tuples and next_id.
#[test]
fn storage_image_round_trip() {
    let task = Task {
        id: 3,
        title: "Tâche".to_string(), // non-ASCII title exercises the UTF-8 path
        status: TaskStatus::InProgress,
        instructions: "PUSH_U32 1".to_string(),
    };
    let data = spacydo::StorageData { tasks: vec![task], next_id: 7 };
    let mut bytes: Vec<u8> = Vec::new();
    data.encode(&mut bytes).unwrap();
    let (decoded, _) = spacydo::StorageData::decode(&bytes, 0).unwrap();
    assert_eq!(decoded.next_id, 7);
    assert_eq!(decoded.tasks.len(), 1);
    assert_eq!(decoded.tasks[0].id, 3);
    assert_eq!(decoded.tasks[0].title, "Tâche");
    assert_eq!(decoded.tasks[0].status, TaskStatus::InProgress);
    assert_eq!(decoded.tasks[0].instructions, "PUSH_U32 1");
}

// Decoding garbage fails with a read error; an invalid status byte is named.
#[test]
fn storage_decode_negatives() {
    // width byte 9 is no valid integer width
    assert!(matches!(
        spacydo::StorageData::decode(&[9, 9, 9], 0),
        Err(VMError::StorageReadError)
    ));
    // one task: id 0, title "A", status 9 (invalid), instructions ""
    let bytes = [1u8, 1, 1, 0, 1, 1, b'A', 9, 1, 0];
    assert!(matches!(
        spacydo::StorageData::decode(&bytes, 0),
        Err(VMError::InvalidStatus(9))
    ));
    // one task: id 0, title holding invalid UTF-8, status 0, instructions ""
    let bytes = [1u8, 1, 1, 0, 1, 2, 0xff, 0xfe, 0, 1, 0];
    assert!(matches!(
        spacydo::StorageData::decode(&bytes, 0),
        Err(VMError::StorageUTF8ConversionFailed)
    ));
}

// Persistence keeps titles, statuses and instruction sources across a VM
// save/load cycle.
#[test]
fn save_load_preserves_tuples() {
    let saved = {
        let ops = "PUSH_STRING One PUSH_STATUS 1 PUSH_CALLDATA [ PUSH_U32 5 END_CALL ] T_CREATE \
                   PUSH_STRING Two PUSH_STATUS 2 PUSH_CALLDATA [ ] T_CREATE \
                   PUSH_U32 0 T_DELETE S_SAVE";
        let mut vm = VM::init(ops).unwrap();
        vm.run().unwrap();
        vm.take_saved().unwrap()
    };
    let vm = VM::init_with_storage("S_LEN", Some(&saved)).unwrap();
    // task 0 was deleted before the save and its id is unreachable now
    assert!(matches!(vm.print_task(0), Err(VMError::TaskNotFound(0))));
    let t1 = vm.print_task(1).unwrap();
    assert_eq!(t1.id, 1);
    assert_eq!(t1.title, "Two");
    assert_eq!(t1.status, TaskStatus::Complete);
    assert_eq!(t1.instructions, "");
}

// Ids stay strictly increasing across deletes: a freed slot is not reused.
#[test]
fn ids_monotonic_across_delete() {
    let ops = "PUSH_STRING A PUSH_STATUS 0 PUSH_CALLDATA [ ] T_CREATE \
               PUSH_U32 0 T_DELETE \
               PUSH_STRING B PUSH_STATUS 0 PUSH_CALLDATA [ ] T_CREATE";
    let mut vm = VM::init(ops).unwrap();
    vm.run().unwrap();
    assert!(matches!(vm.print_task(0), Err(VMError::TaskNotFound(0))));
    let t = vm.print_task(1).unwrap();
    assert_eq!(t.title, "B");
}

// The disassembler reports a truncated operand and a dangling string index.
#[test]
fn disassemble_negatives() {
    let strings = StringPool::new();
    let blobs = InstructionsPool::new();
    // PUSH_U32 with a truncated operand
    assert!(matches!(
        disassemble(&[0x00, 0x01], &strings, &blobs),
        Err(VMError::UnexpectedEOB)
    ));
    // PUSH_STRING naming pool entry 5 of an empty pool
    assert!(matches!(
        disassemble(&[0x02, 0, 0, 0, 5], &strings, &blobs),
        Err(VMError::InvalidStringIndex(5))
    ));
}

// Assemble and disassemble agree on a program without calldata blocks.
#[test]
fn assemble_disassemble_round_trip() {
    let src = "PUSH_STRING hi PUSH_U32 4294967295 EQ IF DUP SWAP DROP_IF THEN S_LEN";
    let mut strings = StringPool::new();
    let mut blobs = InstructionsPool::new();
    let code = assemble(src, &mut strings, &mut blobs).unwrap();
    let text = disassemble(&code, &strings, &blobs).unwrap();
    assert_eq!(text, src);
    let code2 = assemble(&text, &mut strings, &mut blobs).unwrap();
    assert_eq!(code, code2);
}

// S_LOAD stays a no-op.
#[test]
fn s_load_is_noop() {
    let mut vm = VM::init("PUSH_U32 9 S_LOAD").unwrap();
    let stack = vm.run().unwrap();
    assert_eq!(stack, vec![to_u32_val(9)]);
}

// A memory slice value survives unboxing.
#[test]
fn unbox_mem_slice() {
    let vm = VM::init("S_LEN").unwrap();
    let v = to_mem_slice_val(11, 22).unwrap();
    let unboxed = vm.unbox(vec![v]).unwrap();
    assert_eq!(unboxed[0].as_mem_slice().unwrap(), (11, 22));
    assert!(matches!(
        unboxed[0].as_u32(),
        Err(VMError::TypeMismatch)
    ));
}
