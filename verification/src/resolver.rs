use vstd::prelude::*;
use std::collections::HashMap;
use crate::token::Token;
use crate::decimal::decimal_digits;
use crate::decimal::append_decimal;

verus! {

broadcast use vstd::std_specs::hash::group_hash_axioms;

/// The bidirectional map from each bracket's address to its match.
pub type JumpTable = HashMap<usize, usize>;

/// Whether a token is one of the two loop brackets.
pub open spec fn is_bracket(t: Token) -> bool {
    t is LoopStart || t is LoopEnd
}

/// Number of loop-open tokens in the prefix of length `i`.
pub open spec fn open_count(tokens: Seq<Token>, i: int) -> int
    decreases i,
{
    if i <= 0 {
        0
    } else {
        open_count(tokens, i - 1) + if tokens[i - 1] is LoopStart {
            1int
        } else {
            0int
        }
    }
}

/// Number of loop-close tokens in the prefix of length `i`.
pub open spec fn close_count(tokens: Seq<Token>, i: int) -> int
    decreases i,
{
    if i <= 0 {
        0
    } else {
        close_count(tokens, i - 1) + if tokens[i - 1] is LoopEnd {
            1int
        } else {
            0int
        }
    }
}

/// The state of the bracket scan after a prefix of the sequence: the
/// addresses of the loop-opens still waiting for their close, oldest first,
/// and the pairs matched so far, both directions.
pub ghost struct ScanState {
    pub stack: Seq<usize>,
    pub table: Map<usize, usize>,
}

/// The bracket scan over the prefix of length `i`: push each loop-open,
/// pop on each loop-close and record the pair both ways; a loop-close with
/// nothing to pop stops the scan with its address.
pub open spec fn scan_prefix(tokens: Seq<Token>, i: int) -> Result<ScanState, int>
    decreases i,
{
    if i <= 0 {
        Ok(ScanState { stack: Seq::empty(), table: Map::empty() })
    } else {
        match scan_prefix(tokens, i - 1) {
            Err(j) => Err(j),
            Ok(s) => {
                if tokens[i - 1] is LoopStart {
                    Ok(ScanState { stack: s.stack.push((i - 1) as usize), table: s.table })
                } else if tokens[i - 1] is LoopEnd {
                    if s.stack.len() == 0 {
                        Err(i - 1)
                    } else {
                        Ok(
                            ScanState {
                                stack: s.stack.drop_last(),
                                table: s.table.insert(s.stack.last(), (i - 1) as usize).insert(
                                    (i - 1) as usize,
                                    s.stack.last(),
                                ),
                            },
                        )
                    }
                } else {
                    Ok(s)
                }
            },
        }
    }
}

/// Why loop resolution failed: a bracket with no match, at its address.
pub ghost enum ParseFault {
    UnmatchedOpen { index: usize },
    UnmatchedClose { index: usize },
}

/// The outcome of loop resolution over a whole instruction sequence.
pub open spec fn resolve_spec(tokens: Seq<Token>) -> Result<Map<usize, usize>, ParseFault> {
    match scan_prefix(tokens, tokens.len() as int) {
        Err(j) => Err(ParseFault::UnmatchedClose { index: j as usize }),
        Ok(s) => if s.stack.len() == 0 {
            Ok(s.table)
        } else {
            Err(ParseFault::UnmatchedOpen { index: s.stack[0] })
        },
    }
}

/// The message text reported for a resolution failure.
pub open spec fn parse_fault_message(f: ParseFault) -> Seq<char> {
    match f {
        ParseFault::UnmatchedOpen { index } => "Unmatched '[' at index "@ + decimal_digits(
            index as nat,
        ),
        ParseFault::UnmatchedClose { index } => "Unmatched ']' at index "@ + decimal_digits(
            index as nat,
        ),
    }
}

fn unmatched_open_message(i: usize) -> (msg: String)
    ensures
        msg@ == parse_fault_message(ParseFault::UnmatchedOpen { index: i }),
{
    let mut msg: String = "Unmatched '[' at index ".to_owned();
    append_decimal(&mut msg, i);
    msg
}

fn unmatched_close_message(i: usize) -> (msg: String)
    ensures
        msg@ == parse_fault_message(ParseFault::UnmatchedClose { index: i }),
{
    let mut msg: String = "Unmatched ']' at index ".to_owned();
    append_decimal(&mut msg, i);
    msg
}

/// Once the scan has failed it stays failed, whatever follows.
proof fn lemma_scan_prefix_err_persists(tokens: Seq<Token>, i: int, j: int)
    requires
        0 <= i <= j,
        scan_prefix(tokens, i) is Err,
    ensures
        scan_prefix(tokens, j) == scan_prefix(tokens, i),
    decreases j,
{
    if j > i {
        lemma_scan_prefix_err_persists(tokens, i, j - 1);
    }
}

/// Everything a successful scan maintains: the stack holds the addresses of
/// exactly the loop-opens still unmatched, in increasing order and disjoint
/// from the table; the table is symmetric and pairs each loop-open with a
/// loop-close further right; every bracket of the prefix is on one or the
/// other; the stack is as deep as the excess of opens over closes.
proof fn lemma_scan_prefix_invariant(tokens: Seq<Token>, i: int)
    requires
        0 <= i <= tokens.len() <= usize::MAX,
        scan_prefix(tokens, i) is Ok,
    ensures
        ({
            let s = scan_prefix(tokens, i)->Ok_0;
            &&& s.stack.len() == open_count(tokens, i) - close_count(tokens, i)
            &&& forall|k: int|
                0 <= k < s.stack.len() ==> (#[trigger] s.stack[k]) < i && tokens[s.stack[k] as int] is LoopStart
                    && !s.table.dom().contains(s.stack[k])
            &&& forall|k1: int, k2: int|
                0 <= k1 < k2 < s.stack.len() ==> s.stack[k1] < s.stack[k2]
            &&& forall|a: usize|
                #[trigger] s.table.dom().contains(a) ==> {
                    &&& a < i
                    &&& is_bracket(tokens[a as int])
                    &&& s.table.dom().contains(s.table[a])
                    &&& s.table[s.table[a]] == a
                    &&& s.table[a] != a
                    &&& (tokens[a as int] is LoopStart ==> a < s.table[a] && tokens[s.table[a] as int] is LoopEnd)
                    &&& (tokens[a as int] is LoopEnd ==> s.table[a] < a && tokens[s.table[a] as int] is LoopStart)
                }
            &&& forall|a: int|
                0 <= a < i && is_bracket(tokens[a]) ==> s.table.dom().contains(a as usize)
                    || s.stack.contains(a as usize)
        }),
    decreases i,
{
    if i > 0 {
        lemma_scan_prefix_invariant(tokens, i - 1);
        let s0 = scan_prefix(tokens, i - 1)->Ok_0;
        let s = scan_prefix(tokens, i)->Ok_0;
        if tokens[i - 1] is LoopStart {
            assert(s.stack[s.stack.len() - 1] == (i - 1) as usize);
            assert forall|a: int|
                0 <= a < i && is_bracket(tokens[a]) implies s.table.dom().contains(a as usize)
                || s.stack.contains(a as usize) by {
                if a < i - 1 {
                    if s0.stack.contains(a as usize) {
                        let k = choose|k: int|
                            0 <= k < s0.stack.len() && s0.stack[k] == a as usize;
                        assert(s.stack[k] == a as usize);
                    }
                }
            }
        } else if tokens[i - 1] is LoopEnd {
            let a = s0.stack.last();
            let j = (i - 1) as usize;
            assert(a == s0.stack[s0.stack.len() - 1]);
            assert(a < j);
            assert(!s0.table.dom().contains(a));
            assert(!s0.table.dom().contains(j));
            assert forall|b: int|
                0 <= b < i && is_bracket(tokens[b]) implies s.table.dom().contains(b as usize)
                || s.stack.contains(b as usize) by {
                if b < i - 1 && b != a {
                    if s0.stack.contains(b as usize) {
                        let k = choose|k: int|
                            0 <= k < s0.stack.len() && s0.stack[k] == b as usize;
                        assert(s0.stack[s0.stack.len() - 1] == a);
                        assert(k < s0.stack.len() - 1);
                        assert(s.stack[k] == b as usize);
                    }
                }
            }
        } else {
            assert(s =~= s0) by {
                assert(s == s0);
            }
        }
    }
}

/// As long as the scan has not failed, no prefix has seen more loop-closes
/// than loop-opens.
proof fn lemma_scan_prefix_nonneg(tokens: Seq<Token>, i: int)
    requires
        0 <= i <= tokens.len() <= usize::MAX,
        scan_prefix(tokens, i) is Ok,
    ensures
        forall|k: int| 0 <= k <= i ==> close_count(tokens, k) <= open_count(tokens, k),
    decreases i,
{
    if i > 0 {
        lemma_scan_prefix_nonneg(tokens, i - 1);
        lemma_scan_prefix_invariant(tokens, i);
    }
}

/// A failed scan failed on a loop-close, at the first address where the
/// loop-closes outnumber the loop-opens.
proof fn lemma_scan_prefix_err(tokens: Seq<Token>, i: int)
    requires
        0 <= i <= tokens.len() <= usize::MAX,
        scan_prefix(tokens, i) is Err,
    ensures
        ({
            let j = scan_prefix(tokens, i)->Err_0;
            &&& 0 <= j < i
            &&& tokens[j] is LoopEnd
            &&& close_count(tokens, j + 1) == open_count(tokens, j + 1) + 1
            &&& forall|k: int| 0 <= k <= j ==> close_count(tokens, k) <= open_count(tokens, k)
        }),
    decreases i,
{
    if scan_prefix(tokens, i - 1) is Err {
        lemma_scan_prefix_err(tokens, i - 1);
    } else {
        lemma_scan_prefix_invariant(tokens, i - 1);
        lemma_scan_prefix_nonneg(tokens, i - 1);
    }
}

/// Law: when every bracket resolves, the jump table is symmetric — each
/// entry `(a, b)` has its mirror `(b, a)` — and its entries are exactly the
/// bracket addresses, each loop-open paired with a loop-close further right
/// and vice versa.
pub proof fn lemma_jump_table_symmetric(tokens: Seq<Token>)
    requires
        tokens.len() <= usize::MAX,
        resolve_spec(tokens) is Ok,
    ensures
        ({
            let m = resolve_spec(tokens)->Ok_0;
            &&& forall|a: usize|
                #[trigger] m.dom().contains(a) ==> m.dom().contains(m[a]) && m[m[a]] == a
            &&& forall|a: usize|
                #[trigger] m.dom().contains(a) ==> a < tokens.len() && is_bracket(tokens[a as int])
            &&& forall|a: int|
                0 <= a < tokens.len() && is_bracket(tokens[a]) ==> m.dom().contains(a as usize)
            &&& forall|a: usize|
                #[trigger] m.dom().contains(a) && tokens[a as int] is LoopStart ==> a < m[a]
                    && tokens[m[a] as int] is LoopEnd
            &&& forall|a: usize|
                #[trigger] m.dom().contains(a) && tokens[a as int] is LoopEnd ==> m[a] < a
                    && tokens[m[a] as int] is LoopStart
        }),
{
    lemma_scan_prefix_invariant(tokens, tokens.len() as int);
}

/// Law: an unmatched loop-close is reported at the address of the offending
/// character itself — the first address where the loop-closes of the prefix
/// outnumber its loop-opens, and a loop-close stands.
pub proof fn lemma_unmatched_close_position(tokens: Seq<Token>)
    requires
        tokens.len() <= usize::MAX,
        resolve_spec(tokens) matches Err(f) && f is UnmatchedClose,
    ensures
        ({
            let j = resolve_spec(tokens)->Err_0->UnmatchedClose_index;
            &&& j < tokens.len()
            &&& tokens[j as int] is LoopEnd
            &&& close_count(tokens, j + 1) == open_count(tokens, j + 1) + 1
            &&& forall|k: int| 0 <= k <= j ==> close_count(tokens, k) <= open_count(tokens, k)
        }),
{
    lemma_scan_prefix_err(tokens, tokens.len() as int);
}

/// Law: an unmatched loop-open is reported at the address of a loop-open
/// that the scan never matched, and such a report only comes from a
/// sequence with more loop-opens than loop-closes.
pub proof fn lemma_unmatched_open_position(tokens: Seq<Token>)
    requires
        tokens.len() <= usize::MAX,
        resolve_spec(tokens) matches Err(f) && f is UnmatchedOpen,
    ensures
        ({
            let j = resolve_spec(tokens)->Err_0->UnmatchedOpen_index;
            &&& j < tokens.len()
            &&& tokens[j as int] is LoopStart
            &&& open_count(tokens, tokens.len() as int) > close_count(tokens, tokens.len() as int)
        }),
{
    lemma_scan_prefix_invariant(tokens, tokens.len() as int);
}

/// Build the jump table for an instruction sequence: a single left-to-right
/// scan with a stack of pending loop-opens. On success every bracket address
/// maps to its match, in both directions; otherwise the error names the
/// address of the first bracket that cannot be matched.
pub fn parse_loops(tokens: &[Token]) -> (r: Result<JumpTable, String>)
    ensures
        match r {
            Ok(t) => resolve_spec(tokens@) matches Ok(m) && t@ == m,
            Err(msg) => resolve_spec(tokens@) matches Err(f) && msg@ == parse_fault_message(f),
        },
{
    let mut jump_table: JumpTable = HashMap::new();
    let mut loop_stack: Vec<usize> = Vec::new();
    let n: usize = tokens.len();
    let mut i: usize = 0;

    while i < n
        invariant
            n == tokens@.len(),
            i <= n,
            scan_prefix(tokens@, i as int) == Ok::<ScanState, int>(
                ScanState { stack: loop_stack@, table: jump_table@ },
            ),
        decreases n - i,
    {
        match tokens[i] {
            Token::LoopStart => {
                loop_stack.push(i);
            },
            Token::LoopEnd => {
                match loop_stack.pop() {
                    Some(start_index) => {
                        jump_table.insert(start_index, i);
                        jump_table.insert(i, start_index);
                    },
                    None => {
                        proof {
                            lemma_scan_prefix_err_persists(tokens@, i + 1, n as int);
                        }
                        return Err(unmatched_close_message(i));
                    },
                }
            },
            _ => {},
        }
        i += 1;
    }

    if loop_stack.len() == 0 {
        Ok(jump_table)
    } else {
        Err(unmatched_open_message(loop_stack[0]))
    }
}

} // verus!
