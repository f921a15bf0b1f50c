//! Heuristic type tags for parameters, return types and local bindings.
//!
//! A tag is advisory text from a closed vocabulary: primitive names, a
//! marked name (`enum#...`, `struct#...`, `array#...`, `tuple#...`), or an
//! explicit `NotIdentified#...` sentinel. Classification is total: an
//! expression shape outside the vocabulary degrades to a sentinel, it
//! never fails.

use vstd::prelude::*;
use vstd::string::StringExecFns;
use crate::ast::{Expression, Function, LitKind, Param, Statement, TypeAnnotation, TypeShape};
use crate::emit::{decimal_digits, decimal_string};

verus! {

/// The tag of a literal, by its kind.
pub open spec fn lit_tag(k: LitKind) -> Seq<char> {
    match k {
        LitKind::Int => "int"@,
        LitKind::Float => "float"@,
        LitKind::Str => "string"@,
        LitKind::Char => "char"@,
        LitKind::Bool => "bool"@,
        LitKind::Byte => "u8"@,
        LitKind::ByteStr => "Vec<u8>"@,
        LitKind::Verbatim => "Verbatim Literal"@,
    }
}

/// The tag of an expression, by its shape alone.
pub open spec fn expr_tag(e: Expression) -> Seq<char>
    decreases e,
{
    match e {
        Expression::Literal(k) => lit_tag(k),
        Expression::Path(segs) => {
            if segs@.len() > 0 {
                "enum#"@ + segs@[0]@
            } else {
                "NotIdentified#ExprPath"@
            }
        },
        Expression::Unary(inner) => expr_tag(*inner),
        Expression::Call => "NotIdentified#ExprCall"@,
        Expression::Closure(params) => {
            if params@.len() > 0 {
                match params@[0] {
                    Some(t) => t@,
                    None => "NotIdentified#ExprClosure"@,
                }
            } else {
                "NotIdentified#ExprClosure"@
            }
        },
        Expression::MacroInvocation(name) => {
            if name@ == "format"@ {
                "string"@
            } else {
                "NotIdentified#ExprMacro"@
            }
        },
        Expression::Array(elems) => {
            if elems@.len() > 0 {
                "array#["@ + expr_tag(elems@[0]) + "; "@ + decimal_digits(elems@.len()) + "]"@
            } else {
                "array#[]"@
            }
        },
        Expression::Tuple(elems) => {
            if elems@.len() > 0 {
                "tuple#("@ + tags_joined(elems@) + ")"@
            } else {
                "tuple#()"@
            }
        },
        Expression::Struct { name, field_is_named } => {
            match name {
                Some(n) => {
                    if field_is_named@.contains(true) {
                        "struct#"@ + n@
                    } else {
                        "NotIdentified#Struct"@
                    }
                },
                None => "NotIdentified#Struct"@,
            }
        },
        _ => "NotIdentified#Expression"@,
    }
}

/// The tags of a sequence of expressions, joined by a comma and a space.
pub open spec fn tags_joined(elems: Seq<Expression>) -> Seq<char>
    decreases elems,
{
    if elems.len() == 0 {
        Seq::<char>::empty()
    } else if elems.len() == 1 {
        expr_tag(elems[0])
    } else {
        expr_tag(elems[0]) + ", "@ + tags_joined(elems.subrange(1, elems.len() as int))
    }
}

/// Appending an element appends its tag, after a separator wherever an
/// element already stands.
proof fn lemma_tags_joined_push(s: Seq<Expression>, x: Expression)
    ensures
        tags_joined(s.push(x)) == (if s.len() == 0 {
            expr_tag(x)
        } else {
            tags_joined(s) + ", "@ + expr_tag(x)
        }),
    decreases s,
{
    if s.len() == 0 {
        assert(s.push(x)[0] == x);
    } else {
        assert(s.push(x)[0] == s[0]);
        assert(s.push(x).subrange(1, s.push(x).len() as int) =~= s.subrange(
            1,
            s.len() as int,
        ).push(x));
        lemma_tags_joined_push(s.subrange(1, s.len() as int), x);
        if s.len() == 1 {
            assert(s.subrange(1, 1) =~= Seq::<Expression>::empty());
            assert(tags_joined(s) == expr_tag(s[0]));
            assert(tags_joined(s.push(x)) =~= tags_joined(s) + ", "@ + expr_tag(x));
        } else {
            assert(tags_joined(s.push(x)) =~= tags_joined(s) + ", "@ + expr_tag(x));
        }
    }
}

/// Computes [`expr_tag`]: a tag for every expression, whatever its shape.
pub fn tag_of_expression(e: &Expression) -> (r: String)
    ensures
        r@ == expr_tag(*e),
    decreases *e,
{
    match e {
        Expression::Literal(k) => {
            match k {
                LitKind::Int => "int".to_owned(),
                LitKind::Float => "float".to_owned(),
                LitKind::Str => "string".to_owned(),
                LitKind::Char => "char".to_owned(),
                LitKind::Bool => "bool".to_owned(),
                LitKind::Byte => "u8".to_owned(),
                LitKind::ByteStr => "Vec<u8>".to_owned(),
                LitKind::Verbatim => "Verbatim Literal".to_owned(),
            }
        },
        Expression::Path(segs) => {
            if segs.len() > 0 {
                let mut s = "enum#".to_owned();
                s.append(segs[0].as_str());
                s
            } else {
                "NotIdentified#ExprPath".to_owned()
            }
        },
        Expression::Unary(inner) => tag_of_expression(inner),
        Expression::Call => "NotIdentified#ExprCall".to_owned(),
        Expression::Closure(params) => {
            if params.len() > 0 {
                match &params[0] {
                    Some(t) => t.clone(),
                    None => "NotIdentified#ExprClosure".to_owned(),
                }
            } else {
                "NotIdentified#ExprClosure".to_owned()
            }
        },
        Expression::MacroInvocation(name) => {
            if name.eq(&"format".to_owned()) {
                "string".to_owned()
            } else {
                "NotIdentified#ExprMacro".to_owned()
            }
        },
        Expression::Array(elems) => {
            if elems.len() > 0 {
                proof {
                    assert(decreases_to!(*e => (*e)->Array_0@[0]));
                }
                let mut s = "array#[".to_owned();
                let first = tag_of_expression(&elems[0]);
                s.append(first.as_str());
                s.append("; ");
                let n = decimal_string(elems.len());
                s.append(n.as_str());
                s.append("]");
                proof {
                    assert(s@ =~= "array#["@ + expr_tag(elems@[0]) + "; "@ + decimal_digits(
                        elems@.len(),
                    ) + "]"@);
                }
                s
            } else {
                "array#[]".to_owned()
            }
        },
        Expression::Tuple(elems) => {
            if elems.len() > 0 {
                let ghost eseq = elems@;
                let mut s = "tuple#(".to_owned();
                let mut i: usize = 0;
                proof {
                    assert(eseq.subrange(0, 0) =~= Seq::<Expression>::empty());
                    assert(eseq.subrange(0, eseq.len() as int) =~= eseq);
                }
                while i < elems.len()
                    invariant
                        0 < eseq.len(),
                        i <= eseq.len(),
                        elems@ == eseq,
                        *e is Tuple,
                        (*e)->Tuple_0@ == eseq,
                        s@ == "tuple#("@ + tags_joined(eseq.subrange(0, i as int)),
                    decreases eseq.len() - i,
                {
                    proof {
                        assert(decreases_to!(*e => (*e)->Tuple_0@[i as int]));
                    }
                    let t = tag_of_expression(&elems[i]);
                    if i > 0 {
                        s.append(", ");
                    }
                    s.append(t.as_str());
                    proof {
                        lemma_tags_joined_push(eseq.subrange(0, i as int), eseq[i as int]);
                        assert(eseq.subrange(0, i as int + 1) =~= eseq.subrange(0, i as int).push(
                            eseq[i as int],
                        ));
                        assert(s@ =~= "tuple#("@ + tags_joined(eseq.subrange(0, i as int + 1)));
                    }
                    i = i + 1;
                }
                s.append(")");
                proof {
                    assert(s@ =~= "tuple#("@ + tags_joined(eseq) + ")"@);
                }
                s
            } else {
                "tuple#()".to_owned()
            }
        },
        Expression::Struct { name, field_is_named } => {
            match name {
                Some(n) => {
                    if any_named_field(field_is_named) {
                        let mut s = "struct#".to_owned();
                        s.append(n.as_str());
                        s
                    } else {
                        "NotIdentified#Struct".to_owned()
                    }
                },
                None => "NotIdentified#Struct".to_owned(),
            }
        },
        _ => "NotIdentified#Expression".to_owned(),
    }
}

/// Whether any field of a struct literal is addressed by name.
fn any_named_field(fields: &Vec<bool>) -> (r: bool)
    ensures
        r == fields@.contains(true),
{
    let mut i: usize = 0;
    while i < fields.len()
        invariant
            i <= fields@.len(),
            forall|j: int| 0 <= j < i ==> !fields@[j],
        decreases fields@.len() - i,
    {
        if fields[i] {
            return true;
        }
        i = i + 1;
    }
    false
}

/// The prefix a type annotation's shape puts in front of its raw text.
pub open spec fn shape_prefix(sh: TypeShape) -> Seq<char> {
    match sh {
        TypeShape::Array => "array#"@,
        TypeShape::Tuple => "tuple#"@,
        TypeShape::Other => Seq::<char>::empty(),
    }
}

/// The reported (name, tag) of a local binding, or `None` where the
/// binding is skipped: a binding is reported exactly when it has an
/// initializer and binds a plain name. An explicit annotation wins over
/// the initializer's shape; its raw text is prefixed by
/// [`shape_prefix`] of its shape.
pub open spec fn local_tag_spec(st: Statement) -> Option<(Seq<char>, Seq<char>)> {
    match st {
        Statement::Local { name: Some(n), annotation, init: Some(e) } => {
            match annotation {
                Some(a) => Some((n@, shape_prefix(a.shape) + a.text@)),
                None => Some((n@, expr_tag(e))),
            }
        },
        _ => None,
    }
}

/// The view of an emitted (name, tag) pair.
pub open spec fn tag_pair_view(r: Option<(String, String)>) -> Option<(Seq<char>, Seq<char>)> {
    match r {
        Some(p) => Some((p.0@, p.1@)),
        None => None,
    }
}

/// Computes [`local_tag_spec`]: the reported (name, tag) of one
/// statement, `None` where the statement is skipped.
pub fn local_tag(st: &Statement) -> (r: Option<(String, String)>)
    ensures
        tag_pair_view(r) == local_tag_spec(*st),
{
    match st {
        Statement::Local { name: Some(n), annotation, init: Some(e) } => {
            match annotation {
                Some(a) => {
                    let mut tag = match &a.shape {
                        TypeShape::Array => "array#".to_owned(),
                        TypeShape::Tuple => "tuple#".to_owned(),
                        TypeShape::Other => String::new(),
                    };
                    tag.append(a.text.as_str());
                    Some((n.clone(), tag))
                },
                None => Some((n.clone(), tag_of_expression(e))),
            }
        },
        _ => None,
    }
}

/// An explicit annotation decides a reported binding's tag by itself:
/// the tag is the annotation's raw text behind its shape's prefix —
/// `array#` for an array type, `tuple#` for a tuple type — whatever
/// shape the initializing expression has.
pub proof fn lemma_annotation_decides_tag(
    name: String,
    a: TypeAnnotation,
    init: Expression,
    st: Statement,
)
    requires
        st == (Statement::Local { name: Some(name), annotation: Some(a), init: Some(init) }),
    ensures
        local_tag_spec(st) == Some((name@, shape_prefix(a.shape) + a.text@)),
        a.shape is Array ==> local_tag_spec(st) == Some((name@, "array#"@ + a.text@)),
        a.shape is Tuple ==> local_tag_spec(st) == Some((name@, "tuple#"@ + a.text@)),
{
}

/// The (name, type-text) pairs of the parameters that are reported: each
/// parameter written as a plain name with a type, in order; receivers and
/// destructured parameters are skipped.
pub open spec fn param_pairs(ps: Seq<Param>) -> Seq<(Seq<char>, Seq<char>)>
    decreases ps,
{
    if ps.len() == 0 {
        Seq::<(Seq<char>, Seq<char>)>::empty()
    } else {
        (match ps[0] {
            Param::Named { name, type_text } => seq![(name@, type_text@)],
            Param::Other => Seq::<(Seq<char>, Seq<char>)>::empty(),
        }) + param_pairs(ps.subrange(1, ps.len() as int))
    }
}

proof fn lemma_param_pairs_push(s: Seq<Param>, x: Param)
    ensures
        param_pairs(s.push(x)) == param_pairs(s) + (match x {
            Param::Named { name, type_text } => seq![(name@, type_text@)],
            Param::Other => Seq::<(Seq<char>, Seq<char>)>::empty(),
        }),
    decreases s,
{
    let ghost tail = (match x {
        Param::Named { name, type_text } => seq![(name@, type_text@)],
        Param::Other => Seq::<(Seq<char>, Seq<char>)>::empty(),
    });
    if s.len() == 0 {
        assert(s.push(x)[0] == x);
        assert(s.push(x).subrange(1, 1) =~= Seq::<Param>::empty());
        assert(param_pairs(Seq::<Param>::empty()) == Seq::<(Seq<char>, Seq<char>)>::empty());
        assert(param_pairs(s.push(x)) =~= param_pairs(s) + tail);
    } else {
        assert(s.push(x)[0] == s[0]);
        assert(s.push(x).subrange(1, s.push(x).len() as int) =~= s.subrange(
            1,
            s.len() as int,
        ).push(x));
        lemma_param_pairs_push(s.subrange(1, s.len() as int), x);
        assert(param_pairs(s.push(x)) =~= param_pairs(s) + tail);
    }
}

/// Computes [`param_pairs`]: each reported parameter's name and declared
/// type text, in declaration order.
pub fn parameter_types(f: &Function) -> (r: Vec<(String, String)>)
    ensures
        r@.map_values(|p: (String, String)| (p.0@, p.1@)) == param_pairs(f.params@),
{
    let ghost all = f.params@;
    let mut out: Vec<(String, String)> = Vec::new();
    let mut i: usize = 0;
    proof {
        assert(all.subrange(0, 0) =~= Seq::<Param>::empty());
        assert(all.subrange(0, all.len() as int) =~= all);
    }
    while i < f.params.len()
        invariant
            i <= all.len(),
            f.params@ == all,
            out@.map_values(|p: (String, String)| (p.0@, p.1@)) == param_pairs(
                all.subrange(0, i as int),
            ),
        decreases all.len() - i,
    {
        match &f.params[i] {
            Param::Named { name, type_text } => {
                out.push((name.clone(), type_text.clone()));
                proof {
                    assert(out@.map_values(|p: (String, String)| (p.0@, p.1@)) =~= out@.subrange(
                        0,
                        out@.len() - 1,
                    ).map_values(|p: (String, String)| (p.0@, p.1@)).push(
                        (out@[out@.len() - 1].0@, out@[out@.len() - 1].1@),
                    ));
                }
            },
            Param::Other => {},
        }
        proof {
            lemma_param_pairs_push(all.subrange(0, i as int), all[i as int]);
            assert(all.subrange(0, i as int + 1) =~= all.subrange(0, i as int).push(
                all[i as int],
            ));
            assert(out@.map_values(|p: (String, String)| (p.0@, p.1@)) =~= param_pairs(
                all.subrange(0, i as int + 1),
            ));
        }
        i = i + 1;
    }
    out
}

/// The explicit return type, exactly as the declaration carries it.
pub fn return_type(f: &Function) -> (r: Option<String>)
    ensures
        r == f.return_type,
{
    match &f.return_type {
        Some(t) => Some(t.clone()),
        None => None,
    }
}

} // verus!
