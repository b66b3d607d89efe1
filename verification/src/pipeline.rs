//! The two stages composed: lex a sequence of raw lines into events and
//! fold them into the aggregate, as one verified batch run.
//!
//! A streaming caller drives [`crate::lexer::Lexer`] and
//! [`crate::indexer::Indexer`] itself, one line and one event at a time;
//! [`analyse_lines`] is the same computation over lines already in memory,
//! and is specified against the same step functions.

use vstd::prelude::*;

use crate::indexer::ErrorModel;
use crate::indexer::IndexError;
use crate::indexer::Indexer;
use crate::indexer::IndexerModel;
use crate::indexer::VCD;
use crate::indexer::index_step;
use crate::indexer::init_indexer;
use crate::indexer::run_steps;
use crate::lexer::LexerModel;
use crate::lexer::Lexer;
use crate::lexer::LineEventModel;
use crate::lexer::Part;
use crate::lexer::spec_lex;
use crate::lexer::spec_lex_eof;

verus! {

/// A fresh lexer state for a separator byte.
pub open spec fn init_lexer(separator: u8) -> LexerModel {
    LexerModel {
        part: Part::Declarations,
        separator,
        lineno: 0,
        header: Option::None,
    }
}

/// The events a lexer in state `st` produces for `lines` followed by the
/// end of the input.
pub open spec fn lex_all(st: LexerModel, lines: Seq<Seq<u8>>) -> Seq<LineEventModel>
    decreases lines.len(),
{
    if lines.len() == 0 {
        match spec_lex_eof(st) {
            Option::Some(ev) => seq![LineEventModel { value: ev, line_number: st.lineno }],
            Option::None => Seq::empty(),
        }
    } else {
        let out = spec_lex(st, lines[0]);
        (match out.ev {
            Option::Some(e) => seq![
                LineEventModel { value: e, line_number: st.lineno + 1 },
            ],
            Option::None => Seq::empty(),
        }) + lex_all(out.st, lines.drop_first())
    }
}

/// Running the analyser over concatenated event sequences runs them in
/// order, stopping at the first error.
proof fn lemma_run_append(m: IndexerModel, a: Seq<LineEventModel>, b: Seq<LineEventModel>)
    ensures
        run_steps(m, a + b) == (match run_steps(m, a) {
            Result::Ok(m2) => run_steps(m2, b),
            Result::Err(e) => Result::<IndexerModel, ErrorModel>::Err(e),
        }),
    decreases a.len(),
{
    if a.len() == 0 {
        assert(a + b =~= b);
    } else {
        assert((a + b)[0] == a[0]);
        match index_step(m, a[0].value, a[0].line_number) {
            Result::Ok(m2) => {
                assert((a + b).drop_first() =~= a.drop_first() + b);
                lemma_run_append(m2, a.drop_first(), b);
            },
            Result::Err(_) => {},
        }
    }
}

/// Analyse raw input lines: lex them, fold the events, and hand back the
/// populated aggregate or the first error. The result is exactly the run
/// of [`index_step`] over the events of [`lex_all`].
pub fn analyse_lines(lines: &Vec<Vec<u8>>, separator: u8) -> (r: Result<VCD, IndexError>)
    requires
        lines@.len() < u64::MAX,
    ensures
        ({
            let evs = lex_all(init_lexer(separator), lines.deep_view());
            match run_steps(init_indexer(), evs) {
                Result::Ok(m) => (match r {
                    Result::Ok(v) => v@ == m.vcd && v.inv(),
                    Result::Err(_) => false,
                }),
                Result::Err(em) => (match r {
                    Result::Ok(_) => false,
                    Result::Err(ex) => ex@ == em,
                }),
            }
        }),
{
    let ghost all = lines.deep_view();
    let ghost full = lex_all(init_lexer(separator), all);
    let mut lx = Lexer::new(separator);
    let mut ind = Indexer::new();
    let n: usize = lines.len();
    let mut i: usize = 0;
    proof {
        crate::text::lemma_deep_view_bytes(lines);
        assert(all.skip(0) =~= all);
    }
    while i < n
        invariant
            0 <= i <= n == lines@.len(),
            n < u64::MAX,
            all == lines.deep_view(),
            full == lex_all(init_lexer(separator), all),
            all.len() == n,
            forall|j: int| 0 <= j < n ==> all[j] == lines@[j]@,
            lx@.lineno == i,
            ind.inv(),
            run_steps(init_indexer(), full) == run_steps(ind@, lex_all(lx@, all.skip(i as int))),
        decreases n - i,
    {
        let ghost lx_pre = lx@;
        let ghost ind_pre = ind@;
        let ev = lx.feed_line(lines[i].as_slice());
        proof {
            assert(all.skip(i as int)[0] == all[i as int]);
            assert(all.skip(i as int).drop_first() =~= all.skip(i + 1));
        }
        match ev {
            Option::Some(e) => {
                let ghost head = seq![e@];
                proof {
                    let rest = lex_all(lx@, all.skip(i + 1));
                    assert(lex_all(lx_pre, all.skip(i as int)) =~= head + rest);
                    lemma_run_append(ind_pre, head, rest);
                    assert((head + rest)[0] == e@);
                }
                let fed = ind.feed(&e);
                proof {
                    reveal_with_fuel(run_steps, 3);
                    assert(head.len() == 1);
                    assert(head[0] == e@);
                    assert(head.drop_first() =~= Seq::<LineEventModel>::empty());
                    match index_step(ind_pre, e@.value, e@.line_number) {
                        Result::Ok(m2) => {
                            assert(run_steps(ind_pre, head)
                                == Result::<IndexerModel, ErrorModel>::Ok(m2));
                        },
                        Result::Err(er) => {
                            assert(run_steps(ind_pre, head)
                                == Result::<IndexerModel, ErrorModel>::Err(er));
                        },
                    }
                }
                match fed {
                    Ok(()) => {},
                    Err(err) => {
                        return Err(err);
                    },
                }
            },
            Option::None => {
                proof {
                    assert(lex_all(lx_pre, all.skip(i as int)) =~= lex_all(lx@, all.skip(i + 1)));
                }
            },
        }
        i = i + 1;
    }
    proof {
        assert(all.skip(n as int) =~= Seq::<Seq<u8>>::empty());
    }
    let ghost lx_end = lx@;
    let ghost ind_end = ind@;
    let tail = lx.finish();
    match tail {
        Option::Some(e) => {
            proof {
                reveal_with_fuel(run_steps, 3);
                let evs = lex_all(lx_end, Seq::<Seq<u8>>::empty());
                assert(evs =~= seq![e@]);
                assert(seq![e@].len() == 1);
                assert(seq![e@][0] == e@);
                assert(seq![e@].drop_first() =~= Seq::<LineEventModel>::empty());
            }
            match ind.feed(&e) {
                Ok(()) => {
                    proof {
                        reveal_with_fuel(run_steps, 3);
                        match index_step(ind_end, e@.value, e@.line_number) {
                            Result::Ok(m2) => {
                                assert(run_steps(ind_end, seq![e@])
                                    == Result::<IndexerModel, ErrorModel>::Ok(m2));
                            },
                            Result::Err(_) => {
                                assert(false);
                            },
                        }
                    }
                },
                Err(err) => {
                    proof {
                        reveal_with_fuel(run_steps, 3);
                        match index_step(ind_end, e@.value, e@.line_number) {
                            Result::Ok(_) => {
                                assert(false);
                            },
                            Result::Err(er) => {
                                assert(run_steps(ind_end, seq![e@])
                                    == Result::<IndexerModel, ErrorModel>::Err(er));
                            },
                        }
                    }
                    return Err(err);
                },
            }
        },
        Option::None => {
            proof {
                assert(lex_all(lx_end, Seq::<Seq<u8>>::empty()) =~= Seq::<LineEventModel>::empty());
            }
        },
    }
    Ok(ind.into_vcd())
}

} // verus!
