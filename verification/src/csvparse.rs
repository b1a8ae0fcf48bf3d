//! The transcript format: comma-separated records with double-quote quoting.
//!
//! The dialect, stated byte for byte by [`csv_step`]: records end at LF, CRLF
//! or a lone CR; blank lines yield no record; fields are separated by commas;
//! a field whose first byte is `"` is quoted, a doubled `""` inside it is one
//! literal quote, and bytes after the closing quote are taken literally;
//! inside quotes, commas and line breaks are ordinary bytes. The last record
//! needs no trailing line break.
use vstd::prelude::*;

verus! {

/// Parser position inside a record.
#[derive(Clone, Copy)]
pub enum CsvMode {
    /// At the start of a field, before any of its bytes.
    FieldStart,
    /// Inside an unquoted field (or after a closing quote).
    Unquoted,
    /// Inside a quoted field.
    Quoted,
    /// Right after a quote byte inside a quoted field.
    QuoteInQuoted,
    /// Right after a CR that ended a record, where an LF is swallowed.
    AfterCr,
}

/// Parser state: finished records, finished fields of the current record,
/// bytes of the current field, whether the current record has consumed any
/// byte (a blank line has not), and the position.
pub struct CsvStateV {
    pub records: Seq<Seq<Seq<u8>>>,
    pub fields: Seq<Seq<u8>>,
    pub cur: Seq<u8>,
    pub seen: bool,
    pub mode: CsvMode,
}

/// The state before any byte.
pub open spec fn csv_init() -> CsvStateV {
    CsvStateV {
        records: Seq::empty(),
        fields: Seq::empty(),
        cur: Seq::empty(),
        seen: false,
        mode: CsvMode::FieldStart,
    }
}

/// End of a record: emit it unless the line was blank, and start afresh.
pub open spec fn csv_emit(st: CsvStateV, after_cr: bool) -> CsvStateV {
    CsvStateV {
        records: if st.seen {
            st.records.push(st.fields.push(st.cur))
        } else {
            st.records
        },
        fields: Seq::empty(),
        cur: Seq::empty(),
        seen: false,
        mode: if after_cr {
            CsvMode::AfterCr
        } else {
            CsvMode::FieldStart
        },
    }
}

/// One byte at the start of a field.
pub open spec fn csv_step_field_start(st: CsvStateV, b: u8) -> CsvStateV {
    if b == 34 {
        CsvStateV { seen: true, mode: CsvMode::Quoted, ..st }
    } else if b == 44 {
        CsvStateV {
            fields: st.fields.push(st.cur),
            cur: Seq::empty(),
            seen: true,
            mode: CsvMode::FieldStart,
            ..st
        }
    } else if b == 10 {
        csv_emit(st, false)
    } else if b == 13 {
        csv_emit(st, true)
    } else {
        CsvStateV { cur: st.cur.push(b), seen: true, mode: CsvMode::Unquoted, ..st }
    }
}

/// One byte of input.
pub open spec fn csv_step(st: CsvStateV, b: u8) -> CsvStateV {
    match st.mode {
        CsvMode::FieldStart => csv_step_field_start(st, b),
        CsvMode::Unquoted => {
            if b == 44 {
                CsvStateV {
                    fields: st.fields.push(st.cur),
                    cur: Seq::empty(),
                    mode: CsvMode::FieldStart,
                    ..st
                }
            } else if b == 10 {
                csv_emit(st, false)
            } else if b == 13 {
                csv_emit(st, true)
            } else {
                CsvStateV { cur: st.cur.push(b), ..st }
            }
        },
        CsvMode::Quoted => {
            if b == 34 {
                CsvStateV { mode: CsvMode::QuoteInQuoted, ..st }
            } else {
                CsvStateV { cur: st.cur.push(b), ..st }
            }
        },
        CsvMode::QuoteInQuoted => {
            if b == 34 {
                CsvStateV { cur: st.cur.push(34), mode: CsvMode::Quoted, ..st }
            } else if b == 44 {
                CsvStateV {
                    fields: st.fields.push(st.cur),
                    cur: Seq::empty(),
                    mode: CsvMode::FieldStart,
                    ..st
                }
            } else if b == 10 {
                csv_emit(st, false)
            } else if b == 13 {
                csv_emit(st, true)
            } else {
                CsvStateV { cur: st.cur.push(b), mode: CsvMode::Unquoted, ..st }
            }
        },
        CsvMode::AfterCr => {
            if b == 10 {
                CsvStateV { mode: CsvMode::FieldStart, ..st }
            } else {
                csv_step_field_start(CsvStateV { mode: CsvMode::FieldStart, ..st }, b)
            }
        },
    }
}

/// Parser state after the first `upto` bytes.
pub open spec fn csv_fold(bytes: Seq<u8>, upto: int) -> CsvStateV
    decreases upto,
{
    if upto <= 0 || upto > bytes.len() {
        csv_init()
    } else {
        csv_step(csv_fold(bytes, upto - 1), bytes[upto - 1])
    }
}

/// End of input: the last record needs no trailing line break.
pub open spec fn csv_finish(st: CsvStateV) -> Seq<Seq<Seq<u8>>> {
    if st.seen {
        st.records.push(st.fields.push(st.cur))
    } else {
        st.records
    }
}

/// The records a transcript's bytes parse to.
pub open spec fn csv_records(bytes: Seq<u8>) -> Seq<Seq<Seq<u8>>> {
    csv_finish(csv_fold(bytes, bytes.len() as int))
}

/// Parse a transcript into its records, each a list of field byte strings.
pub fn parse_csv(bytes: &Vec<u8>) -> (r: Vec<Vec<Vec<u8>>>)
    ensures
        r.deep_view() == csv_records(bytes@),
{
    let mut records: Vec<Vec<Vec<u8>>> = Vec::new();
    let mut fields: Vec<Vec<u8>> = Vec::new();
    let mut cur: Vec<u8> = Vec::new();
    let mut seen: bool = false;
    let mut mode: CsvMode = CsvMode::FieldStart;
    proof {
        assert(records.deep_view() =~= csv_init().records);
        assert(fields.deep_view() =~= csv_init().fields);
        assert(cur@ =~= csv_init().cur);
    }
    let mut i: usize = 0;
    while i < bytes.len()
        invariant
            i <= bytes.len(),
            bytes@.len() == bytes.len(),
            records.deep_view() == csv_fold(bytes@, i as int).records,
            fields.deep_view() == csv_fold(bytes@, i as int).fields,
            cur@ == csv_fold(bytes@, i as int).cur,
            seen == csv_fold(bytes@, i as int).seen,
            mode == csv_fold(bytes@, i as int).mode,
        decreases bytes.len() - i,
    {
        let ghost st = csv_fold(bytes@, i as int);
        let b = bytes[i];
        let is_field_start: bool = match mode {
            CsvMode::FieldStart => true,
            CsvMode::AfterCr => {
                if b != 10 {
                    mode = CsvMode::FieldStart;
                    true
                } else {
                    false
                }
            },
            _ => false,
        };
        if is_field_start {
            if b == 34 {
                seen = true;
                mode = CsvMode::Quoted;
            } else if b == 44 {
                let mut f: Vec<u8> = Vec::new();
                core::mem::swap(&mut f, &mut cur);
                fields.push(f);
                seen = true;
                mode = CsvMode::FieldStart;
                proof {
                    assert(fields.deep_view() =~~= st.fields.push(st.cur));
                    assert(cur@ =~= Seq::<u8>::empty());
                }
            } else if b == 10 || b == 13 {
                if seen {
                    let mut f: Vec<u8> = Vec::new();
                    core::mem::swap(&mut f, &mut cur);
                    fields.push(f);
                    let mut rec: Vec<Vec<u8>> = Vec::new();
                    core::mem::swap(&mut rec, &mut fields);
                    proof {
                        assert(rec.deep_view() =~~= st.fields.push(st.cur));
                    }
                    records.push(rec);
                    seen = false;
                    proof {
                        assert(records.deep_view() =~~= st.records.push(st.fields.push(st.cur)));
                    }
                } else {
                    cur.clear();
                    fields.clear();
                }
                mode = if b == 13 {
                    CsvMode::AfterCr
                } else {
                    CsvMode::FieldStart
                };
                proof {
                    assert(fields.deep_view() =~~= Seq::<Seq<u8>>::empty());
                    assert(cur@ =~= Seq::<u8>::empty());
                }
            } else {
                cur.push(b);
                seen = true;
                mode = CsvMode::Unquoted;
                proof {
                    assert(cur@ =~= st.cur.push(b));
                }
            }
        } else {
            match mode {
                CsvMode::FieldStart => {
                    proof {
                        assert(false);
                    }
                },
                CsvMode::AfterCr => {
                    // Only an LF lands here: it completes a CRLF terminator.
                    mode = CsvMode::FieldStart;
                },
                CsvMode::Unquoted => {
                    if b == 44 {
                        let mut f: Vec<u8> = Vec::new();
                        core::mem::swap(&mut f, &mut cur);
                        fields.push(f);
                        mode = CsvMode::FieldStart;
                        proof {
                            assert(fields.deep_view() =~~= st.fields.push(st.cur));
                            assert(cur@ =~= Seq::<u8>::empty());
                        }
                    } else if b == 10 || b == 13 {
                        if seen {
                            let mut f: Vec<u8> = Vec::new();
                            core::mem::swap(&mut f, &mut cur);
                            fields.push(f);
                            let mut rec: Vec<Vec<u8>> = Vec::new();
                            core::mem::swap(&mut rec, &mut fields);
                            proof {
                                assert(rec.deep_view() =~~= st.fields.push(st.cur));
                            }
                            records.push(rec);
                            seen = false;
                            proof {
                                assert(records.deep_view() =~~= st.records.push(
                                    st.fields.push(st.cur),
                                ));
                            }
                        } else {
                            cur.clear();
                            fields.clear();
                        }
                        mode = if b == 13 {
                            CsvMode::AfterCr
                        } else {
                            CsvMode::FieldStart
                        };
                        proof {
                            assert(fields.deep_view() =~~= Seq::<Seq<u8>>::empty());
                            assert(cur@ =~= Seq::<u8>::empty());
                        }
                    } else {
                        cur.push(b);
                        proof {
                            assert(cur@ =~= st.cur.push(b));
                        }
                    }
                },
                CsvMode::Quoted => {
                    if b == 34 {
                        mode = CsvMode::QuoteInQuoted;
                    } else {
                        cur.push(b);
                        proof {
                            assert(cur@ =~= st.cur.push(b));
                        }
                    }
                },
                CsvMode::QuoteInQuoted => {
                    if b == 34 {
                        cur.push(34);
                        mode = CsvMode::Quoted;
                        proof {
                            assert(cur@ =~= st.cur.push(34u8));
                        }
                    } else if b == 44 {
                        let mut f: Vec<u8> = Vec::new();
                        core::mem::swap(&mut f, &mut cur);
                        fields.push(f);
                        mode = CsvMode::FieldStart;
                        proof {
                            assert(fields.deep_view() =~~= st.fields.push(st.cur));
                            assert(cur@ =~= Seq::<u8>::empty());
                        }
                    } else if b == 10 || b == 13 {
                        if seen {
                            let mut f: Vec<u8> = Vec::new();
                            core::mem::swap(&mut f, &mut cur);
                            fields.push(f);
                            let mut rec: Vec<Vec<u8>> = Vec::new();
                            core::mem::swap(&mut rec, &mut fields);
                            proof {
                                assert(rec.deep_view() =~~= st.fields.push(st.cur));
                            }
                            records.push(rec);
                            seen = false;
                            proof {
                                assert(records.deep_view() =~~= st.records.push(
                                    st.fields.push(st.cur),
                                ));
                            }
                        } else {
                            cur.clear();
                            fields.clear();
                        }
                        mode = if b == 13 {
                            CsvMode::AfterCr
                        } else {
                            CsvMode::FieldStart
                        };
                        proof {
                            assert(fields.deep_view() =~~= Seq::<Seq<u8>>::empty());
                            assert(cur@ =~= Seq::<u8>::empty());
                        }
                    } else {
                        cur.push(b);
                        mode = CsvMode::Unquoted;
                        proof {
                            assert(cur@ =~= st.cur.push(b));
                        }
                    }
                },
            }
        }
        i = i + 1;
    }
    if seen {
        let ghost st = csv_fold(bytes@, bytes@.len() as int);
        let mut f: Vec<u8> = Vec::new();
        core::mem::swap(&mut f, &mut cur);
        fields.push(f);
        let mut rec: Vec<Vec<u8>> = Vec::new();
        core::mem::swap(&mut rec, &mut fields);
        proof {
            assert(rec.deep_view() =~~= st.fields.push(st.cur));
        }
        records.push(rec);
        proof {
            assert(records.deep_view() =~~= st.records.push(st.fields.push(st.cur)));
        }
    }
    records
}

} // verus!
