use rustedbrain::program::{Program, ProgramError};

fn code_of(p: &Program) -> Vec<u8> {
    let mut out = Vec::new();
    for i in 0..p.len() {
        out.push(p.instruction(i));
    }
    out
}

#[test]
fn valid_bchars_are_the_eight_instructions() {
    for b in b"><+-.,[]" {
        assert!(Program::is_valid_bchar(*b));
    }
    for b in b" \nab09{}()#" {
        assert!(!Program::is_valid_bchar(*b));
    }
}

#[test]
fn load_without_loops_keeps_instructions_in_order() {
    let p = Program::new(&b"hello, world. +> <- done".to_vec()).unwrap();
    assert_eq!(code_of(&p), b",.+><-".to_vec());
}

#[test]
fn load_of_text_without_instructions_is_empty() {
    let p = Program::new(&b"just a comment\n".to_vec()).unwrap();
    assert_eq!(p.len(), 0);
}

#[test]
fn load_of_empty_source_is_empty() {
    let p = Program::new(&Vec::new()).unwrap();
    assert_eq!(p.len(), 0);
}

#[test]
fn balanced_loops_link_both_ways() {
    let p = Program::new(&b"x[[ ]]y[]".to_vec()).unwrap();
    assert_eq!(code_of(&p), b"[[]][]".to_vec());
    assert_eq!(p.loop_partner(0), 3);
    assert_eq!(p.loop_partner(3), 0);
    assert_eq!(p.loop_partner(1), 2);
    assert_eq!(p.loop_partner(2), 1);
    assert_eq!(p.loop_partner(4), 5);
    assert_eq!(p.loop_partner(5), 4);
    for i in 0..p.len() {
        assert_eq!(p.loop_partner(p.loop_partner(i)), i);
    }
}

#[test]
fn links_use_indices_after_filtering() {
    let p = Program::new(&b"ab[cd+ef]".to_vec()).unwrap();
    assert_eq!(code_of(&p), b"[+]".to_vec());
    assert_eq!(p.loop_partner(0), 2);
    assert_eq!(p.loop_partner(2), 0);
}

#[test]
fn lone_loop_start_is_unmatched() {
    assert_eq!(Program::new(&b"[".to_vec()).err(), Some(ProgramError::LoopBeginningWithoutEnd));
}

#[test]
fn lone_loop_end_is_unmatched() {
    assert_eq!(Program::new(&b"]".to_vec()).err(), Some(ProgramError::LoopEndWithoutBeginning));
}

#[test]
fn end_before_start_fails_on_the_end() {
    assert_eq!(Program::new(&b"][".to_vec()).err(), Some(ProgramError::LoopEndWithoutBeginning));
}

#[test]
fn unclosed_outer_loop_fails() {
    assert_eq!(Program::new(&b"[[]".to_vec()).err(), Some(ProgramError::LoopBeginningWithoutEnd));
}

#[test]
fn extra_end_after_balanced_part_fails() {
    assert_eq!(Program::new(&b"[]]".to_vec()).err(), Some(ProgramError::LoopEndWithoutBeginning));
}
