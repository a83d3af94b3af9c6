use spacydo::{InlineVec, VMError};

#[test]
fn create_inline_vec() {
    let ivec: InlineVec<u64, 255> = InlineVec::new();
    assert_eq!(ivec.array, [0u64; u8::MAX as usize]);
}

#[test]
fn push_success() {
    let mut ivec: InlineVec<u64, 5> = InlineVec::new();
    ivec.push(1).unwrap();
    ivec.push(2).unwrap();
    assert_eq!(ivec.array, [1, 2, 0, 0, 0]);
}

#[test]
fn push_overflow() {
    let mut ivec: InlineVec<u64, 1> = InlineVec::new();
    ivec.push(1).unwrap();
    assert!(matches!(ivec.push(2), Err(VMError::StackOverflow)));
}

#[test]
fn pop_succes() {
    let mut ivec: InlineVec<u64, 5> = InlineVec::new();
    ivec.push(1).unwrap();
    ivec.push(2).unwrap();
    ivec.pop().unwrap();
    assert_eq!(ivec.array, [1, 0, 0, 0, 0]);
}

#[test]
fn pop_underflow() {
    let mut ivec: InlineVec<u64, 5> = InlineVec::new();
    assert!(matches!(ivec.pop(), Err(VMError::StackUnderflow)));
}
