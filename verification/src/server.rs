//! What the web service computes for a request: audit the code, run it, and
//! report the memory.
use crate::codegen::{Evaluator, ev_program, format_runtime_value, memory_view};
use crate::lexer::Lexer;
use crate::parser::{Parser, TokenSource, parse_source};
use crate::semantic::{Analyzer, AuditState, AuditEventView, audit_block};
use crate::symbol_table::SymbolView;
use crate::table::Table;
use crate::value::value_text;
use crate::vm::strings_view;
use vstd::prelude::*;

verus! {

/// A request: the source code to run.
pub struct YaraRequest {
    pub code: String,
}

/// A response: whether the code passed the audit, how long it took, the final
/// memory as text, or what the audit rejected.
pub struct YaraResponse {
    pub success: bool,
    pub execution_time_ms: u128,
    pub memory_state: Option<Vec<(String, String)>>,
    pub error_details: Option<String>,
}

/// An auditor's starting state.
pub open spec fn empty_audit() -> AuditState {
    AuditState {
        sym: SymbolView { assets: Map::empty(), variables: Map::empty(), transactions: Map::empty() },
        log: Seq::empty(),
    }
}

/// What a request comes to: the audit's error, or the memory after the
/// evaluator ran the program (whatever error stopped it), each value as text.
/// `None` where the evaluation halts within `max_depth` nested calls.
pub open spec fn request_outcome(code: Seq<char>, max_depth: nat) -> Option<Result<Map<Seq<char>, Seq<char>>, Seq<char>>> {
    let prog = parse_source(TokenSource { text: code, start: 0 }).0;
    match audit_block(empty_audit(), prog).1 {
        Err(m) => Some(Err(m)),
        Ok(()) => match ev_program(
            max_depth,
            crate::codegen::EvState { memory: Map::empty(), vault: Map::empty() },
            prog,
        ) {
            None => None,
            Some((st, _)) => Some(Ok(st.memory.map_values(|v: crate::value::Value| value_text(v)))),
        },
    }
}

/// Lexes, parses, audits and evaluates the code, as the web service does for
/// a request; the evaluation's own error, if any, is not reported.
#[verifier::rlimit(30)]
pub fn evaluate_request(code: &str, max_depth: u64) -> (r: Option<Result<Table<String>, String>>)
    requires
        vstd::utf8::encode_utf8(code@).len() + 3 <= usize::MAX,
    ensures
        match request_outcome(code@, max_depth as nat) {
            None => r is None,
            Some(Err(m)) => r matches Some(Err(x)) && x@ == m,
            Some(Ok(mem)) => r matches Some(Ok(t)) && strings_view(t@) == mem,
        },
{
    let lexer = Lexer::new(code);
    let mut parser = Parser::new(lexer);
    let program = parser.parse_program();
    let mut analyzer = Analyzer::new();
    assert(analyzer.state() == empty_audit());
    match analyzer.analyze_program(&program) {
        Err(m) => return Some(Err(m)),
        Ok(()) => {},
    }
    let mut evaluator = Evaluator::new();
    assert(evaluator.state() == (crate::codegen::EvState { memory: Map::empty(), vault: Map::empty() })) by {
        assert(memory_view(evaluator.memory@) =~= Map::empty());
        assert(crate::codegen::vault_view(evaluator.transaction_vault@) =~= Map::empty());
    }
    match evaluator.try_evaluate_program(&program, max_depth) {
        None => return None,
        Some(_) => {},
    }
    let entries = evaluator.memory.entries();
    let mut out: Table<String> = Table::new();
    let mut i: usize = 0;
    while i < entries.len()
        invariant
            i <= entries@.len(),
            forall|j: int| 0 <= j < entries@.len() ==> #[trigger] evaluator.memory@.contains_key(entries@[j].0@)
                && evaluator.memory@[entries@[j].0@] == entries@[j].1,
            forall|k: Seq<char>| #[trigger] evaluator.memory@.contains_key(k) ==> exists|j: int|
                0 <= j < entries@.len() && entries@[j].0@ == k,
            forall|k: Seq<char>| #[trigger] out@.contains_key(k) <==> exists|j: int| 0 <= j < i && entries@[j].0@ == k,
            forall|k: Seq<char>| #[trigger] out@.contains_key(k) ==> evaluator.memory@.contains_key(k) && out@[k]@
                == value_text(evaluator.memory@[k]@),
        decreases entries@.len() - i,
    {
        let e = &entries[i];
        assert(evaluator.memory@.contains_key(entries@[i as int].0@));
        out.insert(e.0.clone(), format_runtime_value(&e.1));
        i = i + 1;
    }
    let ghost expected = memory_view(evaluator.memory@).map_values(|v: crate::value::Value| value_text(v));
    assert(strings_view(out@) =~= expected) by {
        assert forall|k: Seq<char>| #[trigger] evaluator.memory@.contains_key(k) implies out@.contains_key(k) by {
            let j = choose|j: int| 0 <= j < entries@.len() && entries@[j].0@ == k;
            assert(0 <= j < i && entries@[j].0@ == k);
        }
    }
    Some(Ok(out))
}

} // verus!
