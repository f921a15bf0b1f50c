//! The line-oriented textual form of each function's findings.
//!
//! For the unsafe-region analysis, one line per function:
//! `<name>;<region count>` followed by `;<score>` for each region in
//! source order. For the tagging analysis, a block of lines:
//! `Function;<name>`, then `Argument;<name>;<type>` per reported
//! parameter, `Return;<type>` where a return type is explicit, and
//! `Local;<name>;<tag>` per reported binding.

use vstd::prelude::*;
use vstd::string::StringExecFns;
use crate::ast::{Function, Param, Statement};
use crate::score::{analyze, block_score, region_count, region_scores};
use crate::tags::{local_tag, local_tag_spec, tag_pair_view};

verus! {

/// The character of one decimal digit.
pub open spec fn digit_char(d: int) -> char
    recommends
        0 <= d < 10,
{
    if d == 0 {
        '0'
    } else if d == 1 {
        '1'
    } else if d == 2 {
        '2'
    } else if d == 3 {
        '3'
    } else if d == 4 {
        '4'
    } else if d == 5 {
        '5'
    } else if d == 6 {
        '6'
    } else if d == 7 {
        '7'
    } else if d == 8 {
        '8'
    } else {
        '9'
    }
}

/// The decimal digits of a number, most significant first, without
/// leading zeros except on zero itself.
pub open spec fn decimal_digits(n: nat) -> Seq<char>
    decreases n,
{
    if n < 10 {
        seq![digit_char(n as int)]
    } else {
        decimal_digits(n / 10) + seq![digit_char((n % 10) as int)]
    }
}

fn digit_str(d: usize) -> (r: &'static str)
    requires
        d < 10,
    ensures
        r@ == seq![digit_char(d as int)],
{
    let r: &'static str = match d {
        0 => "0",
        1 => "1",
        2 => "2",
        3 => "3",
        4 => "4",
        5 => "5",
        6 => "6",
        7 => "7",
        8 => "8",
        _ => "9",
    };
    proof {
        reveal_strlit("0");
        reveal_strlit("1");
        reveal_strlit("2");
        reveal_strlit("3");
        reveal_strlit("4");
        reveal_strlit("5");
        reveal_strlit("6");
        reveal_strlit("7");
        reveal_strlit("8");
        reveal_strlit("9");
        assert(r@ =~= seq![digit_char(d as int)]);
    }
    r
}

/// Renders a number in decimal.
pub fn decimal_string(n: usize) -> (r: String)
    ensures
        r@ == decimal_digits(n as nat),
    decreases n,
{
    if n < 10 {
        digit_str(n).to_owned()
    } else {
        let mut s = decimal_string(n / 10);
        s.append(digit_str(n % 10));
        proof {
            assert(s@ =~= decimal_digits(n as nat));
        }
        s
    }
}

/// The `;<score>` fields a sequence of region scores appends to a line.
pub open spec fn scores_suffix(scores: Seq<int>) -> Seq<char>
    decreases scores,
{
    if scores.len() == 0 {
        Seq::<char>::empty()
    } else {
        ";"@ + decimal_digits(scores[0] as nat) + scores_suffix(
            scores.subrange(1, scores.len() as int),
        )
    }
}

proof fn lemma_scores_suffix_push(s: Seq<int>, x: int)
    ensures
        scores_suffix(s.push(x)) == scores_suffix(s) + ";"@ + decimal_digits(x as nat),
    decreases s,
{
    if s.len() == 0 {
        assert(s.push(x)[0] == x);
        assert(s.push(x).subrange(1, 1) =~= Seq::<int>::empty());
        assert(scores_suffix(Seq::<int>::empty()) == Seq::<char>::empty());
        assert(scores_suffix(s.push(x)) =~= scores_suffix(s) + ";"@ + decimal_digits(x as nat));
    } else {
        assert(s.push(x)[0] == s[0]);
        assert(s.push(x).subrange(1, s.push(x).len() as int) =~= s.subrange(
            1,
            s.len() as int,
        ).push(x));
        lemma_scores_suffix_push(s.subrange(1, s.len() as int), x);
        assert(scores_suffix(s.push(x)) =~= scores_suffix(s) + ";"@ + decimal_digits(x as nat));
    }
}

/// The unsafe-usage line of one function: its name, the region count, and
/// one field per region score, all separated by `;`. A function without
/// regions gets no trailing fields.
pub open spec fn usage_line(f: Function) -> Seq<char> {
    f.name@ + ";"@ + decimal_digits(region_count(f.body.stmts@) as nat) + scores_suffix(
        region_scores(f.body.stmts@),
    )
}

/// Renders [`usage_line`] for one function.
pub fn unsafe_usage_line(f: &Function) -> (r: String)
    requires
        block_score(f.body) <= usize::MAX as int,
    ensures
        r@ == usage_line(*f),
{
    let (count, scores) = analyze(&f.body);
    let ghost sseq = region_scores(f.body.stmts@);
    let mut line = f.name.clone();
    line.append(";");
    let c = decimal_string(count);
    line.append(c.as_str());
    let mut i: usize = 0;
    proof {
        assert(sseq.subrange(0, 0) =~= Seq::<int>::empty());
        assert(sseq.subrange(0, sseq.len() as int) =~= sseq);
        assert(scores_suffix(Seq::<int>::empty()) == Seq::<char>::empty());
        assert(line@ =~= f.name@ + ";"@ + decimal_digits(region_count(f.body.stmts@) as nat)
            + scores_suffix(sseq.subrange(0, 0)));
    }
    while i < scores.len()
        invariant
            i <= sseq.len(),
            scores@.len() == sseq.len(),
            scores@.map_values(|x: usize| x as int) == sseq,
            line@ == f.name@ + ";"@ + decimal_digits(region_count(f.body.stmts@) as nat)
                + scores_suffix(sseq.subrange(0, i as int)),
        decreases sseq.len() - i,
    {
        line.append(";");
        let d = decimal_string(scores[i]);
        line.append(d.as_str());
        proof {
            assert(sseq[i as int] == scores@.map_values(|x: usize| x as int)[i as int]);
            lemma_scores_suffix_push(sseq.subrange(0, i as int), sseq[i as int]);
            assert(sseq.subrange(0, i as int + 1) =~= sseq.subrange(0, i as int).push(
                sseq[i as int],
            ));
            assert(line@ =~= f.name@ + ";"@ + decimal_digits(region_count(f.body.stmts@) as nat)
                + scores_suffix(sseq.subrange(0, i as int + 1)));
        }
        i = i + 1;
    }
    line
}

/// The `Argument;<name>;<type>` lines of the reported parameters.
pub open spec fn argument_lines(ps: Seq<Param>) -> Seq<Seq<char>>
    decreases ps,
{
    if ps.len() == 0 {
        Seq::<Seq<char>>::empty()
    } else {
        (match ps[0] {
            Param::Named { name, type_text } => seq!["Argument;"@ + name@ + ";"@ + type_text@],
            Param::Other => Seq::<Seq<char>>::empty(),
        }) + argument_lines(ps.subrange(1, ps.len() as int))
    }
}

proof fn lemma_argument_lines_push(s: Seq<Param>, x: Param)
    ensures
        argument_lines(s.push(x)) == argument_lines(s) + (match x {
            Param::Named { name, type_text } => seq!["Argument;"@ + name@ + ";"@ + type_text@],
            Param::Other => Seq::<Seq<char>>::empty(),
        }),
    decreases s,
{
    let ghost tail = (match x {
        Param::Named { name, type_text } => seq!["Argument;"@ + name@ + ";"@ + type_text@],
        Param::Other => Seq::<Seq<char>>::empty(),
    });
    if s.len() == 0 {
        assert(s.push(x)[0] == x);
        assert(s.push(x).subrange(1, 1) =~= Seq::<Param>::empty());
        assert(argument_lines(Seq::<Param>::empty()) == Seq::<Seq<char>>::empty());
        assert(argument_lines(s.push(x)) =~= argument_lines(s) + tail);
    } else {
        assert(s.push(x)[0] == s[0]);
        assert(s.push(x).subrange(1, s.push(x).len() as int) =~= s.subrange(
            1,
            s.len() as int,
        ).push(x));
        lemma_argument_lines_push(s.subrange(1, s.len() as int), x);
        assert(argument_lines(s.push(x)) =~= argument_lines(s) + tail);
    }
}

/// The `Return;<type>` line, present exactly where a return type is.
pub open spec fn return_lines(rt: Option<String>) -> Seq<Seq<char>> {
    match rt {
        Some(t) => seq!["Return;"@ + t@],
        None => Seq::<Seq<char>>::empty(),
    }
}

/// The `Local;<name>;<tag>` lines of the reported bindings.
pub open spec fn local_lines(s: Seq<Statement>) -> Seq<Seq<char>>
    decreases s,
{
    if s.len() == 0 {
        Seq::<Seq<char>>::empty()
    } else {
        (match local_tag_spec(s[0]) {
            Some(p) => seq!["Local;"@ + p.0 + ";"@ + p.1],
            None => Seq::<Seq<char>>::empty(),
        }) + local_lines(s.subrange(1, s.len() as int))
    }
}

proof fn lemma_local_lines_push(s: Seq<Statement>, x: Statement)
    ensures
        local_lines(s.push(x)) == local_lines(s) + (match local_tag_spec(x) {
            Some(p) => seq!["Local;"@ + p.0 + ";"@ + p.1],
            None => Seq::<Seq<char>>::empty(),
        }),
    decreases s,
{
    let ghost tail = (match local_tag_spec(x) {
        Some(p) => seq!["Local;"@ + p.0 + ";"@ + p.1],
        None => Seq::<Seq<char>>::empty(),
    });
    if s.len() == 0 {
        assert(s.push(x)[0] == x);
        assert(s.push(x).subrange(1, 1) =~= Seq::<Statement>::empty());
        assert(local_lines(Seq::<Statement>::empty()) == Seq::<Seq<char>>::empty());
        assert(local_lines(s.push(x)) =~= local_lines(s) + tail);
    } else {
        assert(s.push(x)[0] == s[0]);
        assert(s.push(x).subrange(1, s.push(x).len() as int) =~= s.subrange(
            1,
            s.len() as int,
        ).push(x));
        lemma_local_lines_push(s.subrange(1, s.len() as int), x);
        assert(local_lines(s.push(x)) =~= local_lines(s) + tail);
    }
}

/// The type-tagging block of one function: the `Function;<name>` header,
/// the argument lines in order, the return line where one is owed, and
/// the local lines in declaration order.
pub open spec fn report_lines(f: Function) -> Seq<Seq<char>> {
    seq!["Function;"@ + f.name@] + argument_lines(f.params@) + return_lines(f.return_type)
        + local_lines(f.body.stmts@)
}

/// Renders [`report_lines`] for one function.
pub fn type_report(f: &Function) -> (r: Vec<String>)
    ensures
        r@.map_values(|l: String| l@) == report_lines(*f),
{
    let mut out: Vec<String> = Vec::new();
    let mut header = "Function;".to_owned();
    header.append(f.name.as_str());
    out.push(header);
    let ghost pseq = f.params@;
    let mut i: usize = 0;
    proof {
        assert(pseq.subrange(0, 0) =~= Seq::<Param>::empty());
        assert(pseq.subrange(0, pseq.len() as int) =~= pseq);
        assert(argument_lines(Seq::<Param>::empty()) == Seq::<Seq<char>>::empty());
        assert(out@.map_values(|l: String| l@) =~= seq!["Function;"@ + f.name@] + argument_lines(
            pseq.subrange(0, 0),
        ));
    }
    while i < f.params.len()
        invariant
            i <= pseq.len(),
            f.params@ == pseq,
            out@.map_values(|l: String| l@) == seq!["Function;"@ + f.name@] + argument_lines(
                pseq.subrange(0, i as int),
            ),
        decreases pseq.len() - i,
    {
        let ghost prev = out@.map_values(|l: String| l@);
        match &f.params[i] {
            Param::Named { name, type_text } => {
                proof {
                    assert(pseq[i as int] == Param::Named {
                        name: *name,
                        type_text: *type_text,
                    });
                }
                let mut l = "Argument;".to_owned();
                l.append(name.as_str());
                l.append(";");
                l.append(type_text.as_str());
                let ghost lv = l@;
                out.push(l);
                proof {
                    assert(lv == "Argument;"@ + name@ + ";"@ + type_text@);
                    assert(out@.map_values(|l: String| l@) =~= prev.push(lv));
                }
            },
            Param::Other => {},
        }
        proof {
            lemma_argument_lines_push(pseq.subrange(0, i as int), pseq[i as int]);
            assert(pseq.subrange(0, i as int + 1) =~= pseq.subrange(0, i as int).push(
                pseq[i as int],
            ));
            assert(out@.map_values(|l: String| l@) =~= seq!["Function;"@ + f.name@]
                + argument_lines(pseq.subrange(0, i as int + 1)));
        }
        i = i + 1;
    }
    match &f.return_type {
        Some(t) => {
            let mut l = "Return;".to_owned();
            l.append(t.as_str());
            out.push(l);
            proof {
                assert(out@.map_values(|l: String| l@) =~= out@.subrange(0, out@.len() - 1).map_values(
                    |l: String| l@,
                ).push(out@[out@.len() - 1]@));
            }
        },
        None => {},
    }
    proof {
        assert(out@.map_values(|l: String| l@) =~= seq!["Function;"@ + f.name@] + argument_lines(
            pseq,
        ) + return_lines(f.return_type));
    }
    let ghost before_locals = out@.map_values(|l: String| l@);
    let ghost sseq = f.body.stmts@;
    let mut j: usize = 0;
    proof {
        assert(sseq.subrange(0, 0) =~= Seq::<Statement>::empty());
        assert(sseq.subrange(0, sseq.len() as int) =~= sseq);
        assert(local_lines(Seq::<Statement>::empty()) == Seq::<Seq<char>>::empty());
        assert(out@.map_values(|l: String| l@) =~= before_locals + local_lines(
            sseq.subrange(0, 0),
        ));
    }
    while j < f.body.stmts.len()
        invariant
            j <= sseq.len(),
            f.body.stmts@ == sseq,
            before_locals == seq!["Function;"@ + f.name@] + argument_lines(f.params@)
                + return_lines(f.return_type),
            out@.map_values(|l: String| l@) == before_locals + local_lines(
                sseq.subrange(0, j as int),
            ),
        decreases sseq.len() - j,
    {
        let ghost prev = out@.map_values(|l: String| l@);
        match local_tag(&f.body.stmts[j]) {
            Some(pair) => {
                proof {
                    assert(local_tag_spec(sseq[j as int]) == Some((pair.0@, pair.1@)));
                }
                let mut l = "Local;".to_owned();
                l.append(pair.0.as_str());
                l.append(";");
                l.append(pair.1.as_str());
                let ghost lv = l@;
                out.push(l);
                proof {
                    assert(lv == "Local;"@ + pair.0@ + ";"@ + pair.1@);
                    assert(out@.map_values(|l: String| l@) =~= prev.push(lv));
                }
            },
            None => {},
        }
        proof {
            lemma_local_lines_push(sseq.subrange(0, j as int), sseq[j as int]);
            assert(sseq.subrange(0, j as int + 1) =~= sseq.subrange(0, j as int).push(
                sseq[j as int],
            ));
            assert(out@.map_values(|l: String| l@) =~= before_locals + local_lines(
                sseq.subrange(0, j as int + 1),
            ));
        }
        j = j + 1;
    }
    proof {
        assert(out@.map_values(|l: String| l@) =~= report_lines(*f));
    }
    out
}

} // verus!
