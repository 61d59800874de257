use std::collections::HashMap;
use vstd::prelude::*;

verus! {

broadcast use vstd::std_specs::hash::group_hash_axioms;

/// `>`: move the memory pointer right.
pub const PTR_RIGHT: u8 = 0x3E;
/// `<`: move the memory pointer left.
pub const PTR_LEFT: u8 = 0x3C;
/// `+`: increment the current cell.
pub const CELL_INC: u8 = 0x2B;
/// `-`: decrement the current cell.
pub const CELL_DEC: u8 = 0x2D;
/// `.`: output the current cell.
pub const OUTPUT: u8 = 0x2E;
/// `,`: read one input byte into the current cell.
pub const INPUT: u8 = 0x2C;
/// `[`: loop start.
pub const LOOP_START: u8 = 0x5B;
/// `]`: loop end.
pub const LOOP_END: u8 = 0x5D;

/// Is `b` one of the eight instruction characters?
pub open spec fn is_instruction(b: u8) -> bool {
    b == PTR_RIGHT || b == PTR_LEFT || b == CELL_INC || b == CELL_DEC || b == OUTPUT || b == INPUT || b == LOOP_START
        || b == LOOP_END
}

/// The instructions of `src`, in order, with every other byte dropped.
pub open spec fn filter_code(src: Seq<u8>) -> Seq<u8> {
    src.filter(|b: u8| is_instruction(b))
}

/// Net number of open loops after the first `n` instructions of `code`:
/// each `[` counts one up, each `]` one down.
pub open spec fn depth(code: Seq<u8>, n: int) -> int
    decreases n,
{
    if n <= 0 {
        0
    } else {
        depth(code, n - 1) + if code[n - 1] == LOOP_START {
            1int
        } else if code[n - 1] == LOOP_END {
            -1int
        } else {
            0int
        }
    }
}

/// Some `]` of `code` closes a loop that was never opened.
pub open spec fn has_unopened_end(code: Seq<u8>) -> bool {
    exists|n: int| 0 <= n <= code.len() && #[trigger] depth(code, n) < 0
}

/// Every bracket of `code` has its partner.
pub open spec fn balanced(code: Seq<u8>) -> bool {
    !has_unopened_end(code) && depth(code, code.len() as int) == 0
}

/// The `[` at `i` and the `]` at `j` enclose each other: `j` is the first
/// position after `i` at which the depth falls back to the one before `i`.
pub open spec fn brackets_match(code: Seq<u8>, i: int, j: int) -> bool {
    &&& 0 <= i < j < code.len()
    &&& code[i] == LOOP_START
    &&& code[j] == LOOP_END
    &&& depth(code, j + 1) == depth(code, i)
    &&& forall|k: int| i < k <= j ==> #[trigger] depth(code, k) > depth(code, i)
}

/// `links` maps each bracket of `code` to its partner, in both directions,
/// and holds nothing else.
pub open spec fn links_resolved(code: Seq<u8>, links: Map<usize, usize>) -> bool {
    &&& forall|i: usize| #[trigger]
        links.contains_key(i) ==> brackets_match(code, i as int, links[i] as int)
            || brackets_match(code, links[i] as int, i as int)
    &&& forall|i: usize, j: usize| #[trigger]
        brackets_match(code, i as int, j as int) ==> links.contains_key(i) && links[i] == j
            && links.contains_key(j) && links[j] == i
}

/// What a loaded program holds: only instructions, balanced brackets, and
/// an entry in `links` for each bracket, naming its partner.
pub open spec fn well_formed(code: Seq<u8>, links: Map<usize, usize>) -> bool {
    &&& forall|i: int| 0 <= i < code.len() ==> is_instruction(#[trigger] code[i])
    &&& balanced(code)
    &&& links_resolved(code, links)
    &&& forall|i: usize|
        i < code.len() && (code[i as int] == LOOP_START || code[i as int] == LOOP_END)
            ==> #[trigger] links.contains_key(i)
}

/// Every `[` that `stack` holds still opens a loop after the first `n`
/// instructions, and the one at height `m` opened depth `m`.
spec fn stack_ok(code: Seq<u8>, stack: Seq<usize>, n: int) -> bool {
    forall|m: int|
        0 <= m < stack.len() ==> {
            let p = #[trigger] stack[m] as int;
            &&& 0 <= p < n
            &&& code[p] == LOOP_START
            &&& depth(code, p) == m
            &&& still_open(code, p, n)
        }
}

/// The `[` at `k` is not closed within the first `n` instructions.
spec fn still_open(code: Seq<u8>, k: int, n: int) -> bool {
    forall|q: int| k < q <= n ==> #[trigger] depth(code, q) > depth(code, k)
}

/// `links` holds exactly the pairs that close within the first `n` instructions.
spec fn links_upto(code: Seq<u8>, links: Map<usize, usize>, n: int) -> bool {
    &&& forall|i: usize| #[trigger]
        links.contains_key(i) ==> i < n && links[i] < n && (brackets_match(
            code,
            i as int,
            links[i] as int,
        ) || brackets_match(code, links[i] as int, i as int))
    &&& forall|i: usize, j: usize|
        j < n && #[trigger] brackets_match(code, i as int, j as int) ==> links.contains_key(i)
            && links[i] == j && links.contains_key(j) && links[j] == i
}

/// `code` holds no loop bracket.
pub open spec fn no_loops(code: Seq<u8>) -> bool {
    forall|i: int| 0 <= i < code.len() ==> #[trigger] code[i] != LOOP_START && code[i] != LOOP_END
}

/// Without loop brackets the depth stays zero, so the code is balanced.
proof fn lemma_no_loops_balanced(code: Seq<u8>, n: int)
    requires
        no_loops(code),
        0 <= n <= code.len(),
    ensures
        forall|k: int| 0 <= k <= n ==> #[trigger] depth(code, k) == 0,
        n == code.len() ==> balanced(code),
    decreases n,
{
    if n > 0 {
        lemma_no_loops_balanced(code, n - 1);
        assert(depth(code, n) == depth(code, n - 1));
    }
}

/// The model of a program: its instructions and its jump-target table.
pub struct ProgramView {
    pub code: Seq<u8>,
    pub links: Map<usize, usize>,
}

/// A loaded program: instructions only, with every loop bracket linked to
/// its partner.
pub struct Program {
    code: Vec<u8>,
    loop_links: HashMap<usize, usize>,
}

/// Why a source could not be loaded.
#[derive(Debug, PartialEq, Eq, Structural)]
pub enum ProgramError {
    LoopBeginningWithoutEnd,
    LoopEndWithoutBeginning,
}

impl View for Program {
    type V = ProgramView;

    closed spec fn view(&self) -> ProgramView {
        ProgramView { code: self.code@, links: self.loop_links@ }
    }
}

impl Program {
    #[verifier::type_invariant]
    spec fn inv(&self) -> bool {
        well_formed(self.code@, self.loop_links@)
    }

    pub fn is_valid_bchar(bchar: u8) -> (r: bool)
        ensures
            r == is_instruction(bchar),
    {
        bchar == PTR_RIGHT || bchar == PTR_LEFT || bchar == CELL_INC || bchar == CELL_DEC
            || bchar == OUTPUT || bchar == INPUT || bchar == LOOP_START || bchar == LOOP_END
    }
    /// Number of instructions.
    pub fn len(&self) -> (r: usize)
        ensures
            r == self@.code.len(),
    {
        self.code.len()
    }

    /// The instruction at index `i`.
    pub fn instruction(&self, i: usize) -> (r: u8)
        requires
            i < self@.code.len(),
        ensures
            r == self@.code[i as int],
    {
        self.code[i]
    }

    /// The index of the bracket that matches the one at index `i`.
    pub fn loop_partner(&self, i: usize) -> (r: usize)
        requires
            i < self@.code.len(),
            self@.code[i as int] == LOOP_START || self@.code[i as int] == LOOP_END,
        ensures
            self@.links.contains_key(i),
            r == self@.links[i],
            r < self@.code.len(),
    {
        proof {
            use_type_invariant(self);
        }
        match self.loop_links.get(&i) {
            Some(j) => *j,
            None => 0,
        }
    }

    /// Loads `input_code`: keeps its instructions and links each loop
    /// bracket to its partner.
    pub fn new(input_code: &Vec<u8>) -> (r: Result<Program, ProgramError>)
        ensures
            r is Ok <==> balanced(filter_code(input_code@)),
            no_loops(input_code@) ==> r is Ok,
            match r {
                Ok(p) => {
                    &&& p@.code == filter_code(input_code@)
                    &&& well_formed(p@.code, p@.links)
                    &&& forall|i: usize| #[trigger]
                        p@.links.contains_key(i) ==> p@.links.contains_key(p@.links[i])
                            && p@.links[p@.links[i]] == i
                },
                Err(ProgramError::LoopEndWithoutBeginning) => has_unopened_end(
                    filter_code(input_code@),
                ),
                Err(ProgramError::LoopBeginningWithoutEnd) => !has_unopened_end(
                    filter_code(input_code@),
                ) && depth(filter_code(input_code@), filter_code(input_code@).len() as int) > 0,
            },
    {
        let code = Program::filter_instructions(input_code);
        let ghost c = code@;
        proof {
            if no_loops(input_code@) {
                lemma_no_loops_balanced(c, c.len() as int);
            }
        }
        let mut loop_links: HashMap<usize, usize> = HashMap::new();
        let mut unfinished: Vec<usize> = Vec::new();
        let mut n: usize = 0;
        while n < code.len()
            invariant
                c == code@,
                c == filter_code(input_code@),
                no_loops(input_code@) ==> balanced(c),
                n <= code.len(),
                forall|k: int| 0 <= k <= n ==> #[trigger] depth(c, k) >= 0,
                unfinished.len() == depth(c, n as int),
                stack_ok(c, unfinished@, n as int),
                links_upto(c, loop_links@, n as int),
                forall|k: int|
                    0 <= k < n && (c[k] == LOOP_START || c[k] == LOOP_END) ==> #[trigger] loop_links@.contains_key(
                        k as usize,
                    ) || (c[k] == LOOP_START && still_open(c, k, n as int)),
            decreases code.len() - n,
        {
            let bchar = code[n];
            let ghost len = unfinished.len() as int;
            let ghost before = unfinished@;
            assert(depth(c, n + 1) == depth(c, n as int) + if c[n as int] == LOOP_START {
                1int
            } else if c[n as int] == LOOP_END {
                -1int
            } else {
                0int
            });
            if bchar == LOOP_START {
                unfinished.push(n);
                proof {
                    assert forall|m: int| 0 <= m < unfinished@.len() implies {
                        let p = #[trigger] unfinished@[m] as int;
                        &&& 0 <= p < n + 1
                        &&& c[p] == LOOP_START
                        &&& depth(c, p) == m
                        &&& still_open(c, p, n + 1)
                    } by {
                        if m < len {
                            assert(unfinished@[m] == before[m]);
                        }
                    }
                    assert forall|k: int|
                        0 <= k < n + 1 && (c[k] == LOOP_START || c[k] == LOOP_END) implies #[trigger] loop_links@.contains_key(
                            k as usize,
                        ) || (c[k] == LOOP_START && still_open(c, k, n + 1)) by {
                        if k < n && !loop_links@.contains_key(k as usize) {
                            assert(depth(c, n as int) > depth(c, k));
                        }
                    }
                }
            } else if bchar == LOOP_END {
                if unfinished.len() == 0 {
                    proof {
                        assert(depth(filter_code(input_code@), n + 1) < 0);
                    }
                    return Err(ProgramError::LoopEndWithoutBeginning);
                }
                let loop_beginning = unfinished.pop().unwrap();
                let ghost p = loop_beginning as int;
                proof {
                    assert(before[len - 1] == loop_beginning);
                    assert(brackets_match(c, p, n as int));
                    if loop_links@.contains_key(loop_beginning) {
                        let j = loop_links@[loop_beginning] as int;
                        assert(depth(c, j + 1) > depth(c, p));
                    }
                    // a `[` closed here is the innermost open one
                    assert forall|k: int|
                        0 <= k < n && c[k] == LOOP_START && still_open(c, k, n as int) && depth(
                            c,
                            n + 1,
                        ) <= depth(c, k) implies k == p by {
                        assert(depth(c, n as int) > depth(c, k));
                        if k < p {
                            assert(depth(c, p) > depth(c, k));
                        } else if k > p {
                            assert(depth(c, k) > depth(c, p));
                        }
                    }
                }
                loop_links.insert(loop_beginning, n);
                loop_links.insert(n, loop_beginning);
                proof {
                    assert forall|m: int| 0 <= m < unfinished@.len() implies {
                        let q = #[trigger] unfinished@[m] as int;
                        &&& 0 <= q < n + 1
                        &&& c[q] == LOOP_START
                        &&& depth(c, q) == m
                        &&& still_open(c, q, n + 1)
                    } by {
                        assert(unfinished@[m] == before[m]);
                    }
                    assert forall|i: usize, j: usize|
                        j < n + 1 && #[trigger] brackets_match(
                            c,
                            i as int,
                            j as int,
                        ) implies loop_links@.contains_key(i) && loop_links@[i] == j
                        && loop_links@.contains_key(j) && loop_links@[j] == i by {
                        if j == n {
                            assert(depth(c, i as int) == len - 1);
                            if (i as int) < p {
                                assert(depth(c, p) > depth(c, i as int));
                            } else if (i as int) > p {
                                assert(depth(c, i as int) > depth(c, p));
                            }
                        }
                    }
                    assert forall|k: int|
                        0 <= k < n + 1 && (c[k] == LOOP_START || c[k] == LOOP_END) implies #[trigger] loop_links@.contains_key(
                            k as usize,
                        ) || (c[k] == LOOP_START && still_open(c, k, n + 1)) by {
                        if k < n && k != p && c[k] == LOOP_START && !loop_links@.contains_key(k as usize) {
                            assert(depth(c, n as int) > depth(c, k));
                        }
                    }
                }
            } else {
                proof {
                    assert forall|m: int| 0 <= m < unfinished@.len() implies {
                        let p = #[trigger] unfinished@[m] as int;
                        &&& 0 <= p < n + 1
                        &&& c[p] == LOOP_START
                        &&& depth(c, p) == m
                        &&& still_open(c, p, n + 1)
                    } by {}
                    assert forall|k: int|
                        0 <= k < n + 1 && (c[k] == LOOP_START || c[k] == LOOP_END) implies #[trigger] loop_links@.contains_key(
                            k as usize,
                        ) || (c[k] == LOOP_START && still_open(c, k, n + 1)) by {
                        if k < n && !loop_links@.contains_key(k as usize) {
                            assert(depth(c, n as int) > depth(c, k));
                        }
                    }
                }
            }
            n += 1;
        }
        if unfinished.len() > 0 {
            proof {
                assert(!has_unopened_end(c));
            }
            return Err(ProgramError::LoopBeginningWithoutEnd);
        }
        proof {
            assert(!has_unopened_end(c));
            assert forall|k: usize|
                k < c.len() && (c[k as int] == LOOP_START || c[k as int] == LOOP_END) implies #[trigger] loop_links@.contains_key(
                    k,
                ) by {
                let kk = k as int;
                assert(kk < c.len() && (c[kk] == LOOP_START || c[kk] == LOOP_END));
                if !loop_links@.contains_key(kk as usize) {
                    assert(depth(c, c.len() as int) > depth(c, kk));
                    assert(depth(c, kk) >= 0);
                }
            }
            assert forall|i: usize| #[trigger]
                loop_links@.contains_key(i) implies loop_links@.contains_key(loop_links@[i])
                && loop_links@[loop_links@[i]] == i by {
                let j = loop_links@[i];
                if brackets_match(c, i as int, j as int) {
                } else {
                    assert(brackets_match(c, j as int, i as int));
                }
            }
        }
        Ok(Program { code, loop_links })
    }

    /// The instructions of `input_code`, in order.
    fn filter_instructions(input_code: &Vec<u8>) -> (code: Vec<u8>)
        ensures
            code@ == filter_code(input_code@),
            forall|i: int| 0 <= i < code@.len() ==> is_instruction(#[trigger] code@[i]),
            no_loops(input_code@) ==> no_loops(code@),
    {
        let mut code: Vec<u8> = Vec::new();
        let mut i: usize = 0;
        while i < input_code.len()
            invariant
                i <= input_code.len(),
                code@ == filter_code(input_code@.subrange(0, i as int)),
                no_loops(input_code@) ==> no_loops(code@),
            decreases input_code.len() - i,
        {
            let bchar = input_code[i];
            proof {
                reveal(Seq::filter);
                assert(input_code@.subrange(0, i + 1).drop_last() =~= input_code@.subrange(
                    0,
                    i as int,
                ));
            }
            if Program::is_valid_bchar(bchar) {
                code.push(bchar);
            }
            i += 1;
        }
        assert(input_code@.subrange(0, input_code.len() as int) =~= input_code@);
        proof {
            assert forall|i: int| 0 <= i < code@.len() implies is_instruction(#[trigger] code@[i]) by {
                input_code@.lemma_filter_pred(|b: u8| is_instruction(b), i);
            }
        }
        code
    }
}

} // verus!
