//! Pretty printing for MIR: a body as text, block by block.

use vstd::prelude::*;
use crate::ast::Type;
use crate::middle::borrowck::orphan_rules::{debug_text, type_debug_text};
use crate::middle::mir::{
    BasicBlockData, BinOp, Constant, LocalDecl, MirBody, Operand, Place, PlaceElem, Rvalue, Statement, Terminator,
    TerminatorKind, UnOp,
};
use crate::util::text::{decimal, join_with, lemma_join_push, push_decimal};

verus! {

/// The text that the derived `Debug` of `Constant` writes for a constant.
pub uninterp spec fn constant_debug_text(c: Constant) -> Seq<char>;

/// The text that the derived `Debug` of `Rvalue` writes for an rvalue.
pub uninterp spec fn rvalue_debug_text(rv: Rvalue) -> Seq<char>;

/// The text that the derived `Debug` of `TerminatorKind` writes for a
/// terminator kind.
pub uninterp spec fn terminator_kind_debug_text(k: TerminatorKind) -> Seq<char>;

/// Calls the `Debug` formatter of `Constant` through `format!`: the result
/// is the derived `Debug` text of the constant.
#[verifier::external_body]
fn constant_debug(c: &Constant) -> (s: String)
    ensures
        s@ == constant_debug_text(*c),
{
    format!("{:?}", c)
}

/// Calls the `Debug` formatter of `Rvalue` through `format!`: the result is
/// the derived `Debug` text of the rvalue.
#[verifier::external_body]
fn rvalue_debug(rv: &Rvalue) -> (s: String)
    ensures
        s@ == rvalue_debug_text(*rv),
{
    format!("{:?}", rv)
}

/// Calls the `Debug` formatter of `TerminatorKind` through `format!`: the
/// result is the derived `Debug` text of the kind.
#[verifier::external_body]
fn terminator_kind_debug(k: &TerminatorKind) -> (s: String)
    ensures
        s@ == terminator_kind_debug_text(*k),
{
    format!("{:?}", k)
}

/// A local written `_n`.
pub open spec fn local_text(n: u32) -> Seq<char> {
    "_"@ + decimal(n as nat)
}

/// A place: its local, then each projection in turn: `(*p)` for a deref,
/// `p.i` for a field, `p[_l]` for an index by a local, `p[?]` otherwise.
pub open spec fn place_text(local: u32, elems: Seq<PlaceElem>) -> Seq<char>
    decreases elems.len(),
{
    if elems.len() == 0 {
        local_text(local)
    } else {
        let r = place_text(local, elems.drop_last());
        match elems.last() {
            PlaceElem::Deref => "(*"@ + r + ")"@,
            PlaceElem::Field(i) => r + "."@ + decimal(i as nat),
            PlaceElem::Index(l) => r + "["@ + local_text(l.0) + "]"@,
            _ => r + "[?]"@,
        }
    }
}

/// An operand: a copied place as the place, a moved one as `Move(place)`, a
/// constant by its `Debug` text.
pub open spec fn operand_text(o: Operand) -> Seq<char> {
    match o {
        Operand::Copy(p) => place_text(p.local.0, p.projection@),
        Operand::Move(p) => "Move("@ + place_text(p.local.0, p.projection@) + ")"@,
        Operand::Constant(c) => constant_debug_text(c),
    }
}

/// How a binary operator is written; `?` for the bitwise, shift, offset
/// and logical ones.
pub open spec fn binop_text(op: BinOp) -> Seq<char> {
    match op {
        BinOp::Add => "+"@,
        BinOp::Sub => "-"@,
        BinOp::Mul => "*"@,
        BinOp::Div => "/"@,
        BinOp::Rem => "%"@,
        BinOp::Eq => "=="@,
        BinOp::Ne => "!="@,
        BinOp::Lt => "<"@,
        BinOp::Le => "<="@,
        BinOp::Gt => ">"@,
        BinOp::Ge => ">="@,
        _ => "?"@,
    }
}

/// How a unary operator is written.
pub open spec fn unop_text(op: UnOp) -> Seq<char> {
    match op {
        UnOp::Not => "!"@,
        UnOp::Neg => "-"@,
    }
}

/// An rvalue: a use as its operand, `Copy(place)`, `Move(place)`,
/// `left op right`, `op operand`, and any other by its `Debug` text.
pub open spec fn rvalue_text(rv: Rvalue) -> Seq<char> {
    match rv {
        Rvalue::Use(o) => operand_text(o),
        Rvalue::Copy(p) => "Copy("@ + place_text(p.local.0, p.projection@) + ")"@,
        Rvalue::Move(p) => "Move("@ + place_text(p.local.0, p.projection@) + ")"@,
        Rvalue::BinaryOp(op, l, r) => operand_text(*l) + " "@ + binop_text(op) + " "@ + operand_text(*r),
        Rvalue::UnaryOp(op, v) => unop_text(op) + operand_text(*v),
        _ => rvalue_debug_text(rv),
    }
}

/// A statement: `place = rvalue`, `StorageLive(_n)`, `StorageDead(_n)`,
/// `InlineAsm(...)` or `nop`.
pub open spec fn statement_text(s: Statement) -> Seq<char> {
    match s {
        Statement::Assign(p, rv) => place_text(p.local.0, p.projection@) + " = "@ + rvalue_text(rv),
        Statement::StorageLive(l) => "StorageLive("@ + local_text(l.0) + ")"@,
        Statement::StorageDead(l) => "StorageDead("@ + local_text(l.0) + ")"@,
        Statement::InlineAsm(_) => "InlineAsm(...)"@,
        Statement::Nop => "nop"@,
    }
}

/// A terminator: `goto -> bbN`, `return`, `unwind`, a call as
/// `dest = func(args)` followed by ` -> bbN` when it returns somewhere, and
/// any other by its `Debug` text.
pub open spec fn terminator_text(t: Terminator) -> Seq<char> {
    match t.kind {
        TerminatorKind::Goto { target } => "goto -> bb"@ + decimal(target.0 as nat),
        TerminatorKind::Return => "return"@,
        TerminatorKind::Unwind => "unwind"@,
        TerminatorKind::Call { func, args, destination, target } => place_text(
            destination.local.0,
            destination.projection@,
        ) + " = "@ + operand_text(func) + "("@ + join_with(args@.map_values(|a: Operand| operand_text(a)), ", "@)
            + ")"@ + match target {
            Some(b) => " -> bb"@ + decimal(b.0 as nat),
            None => Seq::empty(),
        },
        _ => terminator_kind_debug_text(t.kind),
    }
}

/// The lines of a block's statements, each indented and ended by `;`.
pub open spec fn statements_text(ss: Seq<Statement>) -> Seq<char>
    decreases ss.len(),
{
    if ss.len() == 0 {
        Seq::empty()
    } else {
        statements_text(ss.drop_last()) + "        "@ + statement_text(ss.last()) + ";\n"@
    }
}

/// A block numbered `i`: its label, its statements, its terminator if any,
/// and the closing brace.
pub open spec fn block_text(i: nat, b: BasicBlockData) -> Seq<char> {
    "\nbb"@ + decimal(i) + ": {\n"@ + statements_text(b.statements@) + match b.terminator {
        Some(t) => "        "@ + terminator_text(t) + "\n"@,
        None => Seq::empty(),
    } + "    }\n"@
}

/// The blocks in order.
pub open spec fn blocks_text(bs: Seq<BasicBlockData>) -> Seq<char>
    decreases bs.len(),
{
    if bs.len() == 0 {
        Seq::empty()
    } else {
        blocks_text(bs.drop_last()) + block_text((bs.len() - 1) as nat, bs.last())
    }
}

/// The argument lines: `_i: type,` for each of the first `n` locals after
/// the return place.
pub open spec fn args_text(decls: Seq<LocalDecl>, n: nat) -> Seq<char>
    decreases n,
{
    if n == 0 {
        Seq::empty()
    } else {
        args_text(decls, (n - 1) as nat) + "    "@ + local_text((n - 1) as u32) + ": "@ + type_debug_text(
            decls[n - 1].ty,
        ) + ",\n"@
    }
}

/// The lines `let _i: type;` for the locals from `from` up to `to`.
pub open spec fn lets_text(decls: Seq<LocalDecl>, from: nat, to: nat) -> Seq<char>
    decreases to,
{
    if to <= from {
        Seq::empty()
    } else {
        lets_text(decls, from, (to - 1) as nat) + "    let "@ + local_text((to - 1) as u32) + ": "@
            + type_debug_text(decls[to - 1].ty) + ";\n"@
    }
}

/// A MIR body named `name` as text: its header with the arguments and the
/// result type, its other locals, and its blocks.
pub open spec fn mir_text(body: MirBody, name: Seq<char>) -> Seq<char> {
    let decls = body.local_decls@;
    let n = body.arg_count as nat;
    "fn "@ + name + "(\n"@ + args_text(decls, n) + ") -> "@ + type_debug_text(decls[0].ty) + " {\n"@ + lets_text(
        decls,
        n + 1,
        decls.len(),
    ) + blocks_text(body.basic_blocks@) + "}\n"@
}

fn push_local(out: &mut String, n: u32)
    ensures
        final(out)@ == old(out)@ + local_text(n),
{
    out.append("_");
    push_decimal(out, n as u64);
    proof {
        reveal_strlit("_");
    }
}

/// A place as text.
pub fn format_place(place: &Place) -> (s: String)
    ensures
        s@ == place_text(place.local.0, place.projection@),
{
    let mut r = String::new();
    push_local(&mut r, place.local.0);
    proof {
        assert(place.projection@.take(0) =~= Seq::<PlaceElem>::empty());
    }
    let mut i: usize = 0;
    while i < place.projection.len()
        invariant
            i <= place.projection@.len(),
            r@ == place_text(place.local.0, place.projection@.take(i as int)),
        decreases place.projection@.len() - i,
    {
        let ghost prev = place.projection@.take(i as int);
        proof {
            assert(place.projection@.take(i + 1).drop_last() =~= prev);
        }
        match &place.projection[i] {
            PlaceElem::Deref => {
                let mut n = "(*".to_owned();
                n.append(r.as_str());
                n.append(")");
                r = n;
            },
            PlaceElem::Field(f) => {
                r.append(".");
                push_decimal(&mut r, *f as u64);
            },
            PlaceElem::Index(l) => {
                r.append("[");
                push_local(&mut r, l.0);
                r.append("]");
            },
            _ => {
                r.append("[?]");
            },
        }
        i += 1;
    }
    proof {
        assert(place.projection@.take(i as int) =~= place.projection@);
    }
    r
}

/// An operand as text.
pub fn format_operand(op: &Operand) -> (s: String)
    ensures
        s@ == operand_text(*op),
{
    match op {
        Operand::Copy(place) => format_place(place),
        Operand::Move(place) => {
            let mut s = "Move(".to_owned();
            s.append(format_place(place).as_str());
            s.append(")");
            s
        },
        Operand::Constant(c) => constant_debug(c),
    }
}

/// How a binary operator is written.
pub fn format_binop(op: &BinOp) -> (s: &'static str)
    ensures
        s@ == binop_text(*op),
{
    match op {
        BinOp::Add => "+",
        BinOp::Sub => "-",
        BinOp::Mul => "*",
        BinOp::Div => "/",
        BinOp::Rem => "%",
        BinOp::Eq => "==",
        BinOp::Ne => "!=",
        BinOp::Lt => "<",
        BinOp::Le => "<=",
        BinOp::Gt => ">",
        BinOp::Ge => ">=",
        _ => "?",
    }
}

/// How a unary operator is written.
pub fn format_unop(op: &UnOp) -> (s: &'static str)
    ensures
        s@ == unop_text(*op),
{
    match op {
        UnOp::Not => "!",
        UnOp::Neg => "-",
    }
}

/// An rvalue as text.
pub fn format_rvalue(rvalue: &Rvalue) -> (s: String)
    ensures
        s@ == rvalue_text(*rvalue),
{
    match rvalue {
        Rvalue::Use(op) => format_operand(op),
        Rvalue::Copy(place) => {
            let mut s = "Copy(".to_owned();
            s.append(format_place(place).as_str());
            s.append(")");
            s
        },
        Rvalue::Move(place) => {
            let mut s = "Move(".to_owned();
            s.append(format_place(place).as_str());
            s.append(")");
            s
        },
        Rvalue::BinaryOp(op, left, right) => {
            let mut s = format_operand(left);
            s.append(" ");
            s.append(format_binop(op));
            s.append(" ");
            s.append(format_operand(right).as_str());
            s
        },
        Rvalue::UnaryOp(op, val) => {
            let mut s = format_unop(op).to_owned();
            s.append(format_operand(val).as_str());
            s
        },
        _ => rvalue_debug(rvalue),
    }
}

/// A statement as text.
pub fn format_statement(stmt: &Statement) -> (s: String)
    ensures
        s@ == statement_text(*stmt),
{
    match stmt {
        Statement::Assign(place, rvalue) => {
            let mut s = format_place(place);
            s.append(" = ");
            s.append(format_rvalue(rvalue).as_str());
            s
        },
        Statement::StorageLive(local) => {
            let mut s = "StorageLive(".to_owned();
            push_local(&mut s, local.0);
            s.append(")");
            s
        },
        Statement::StorageDead(local) => {
            let mut s = "StorageDead(".to_owned();
            push_local(&mut s, local.0);
            s.append(")");
            s
        },
        Statement::InlineAsm(_) => "InlineAsm(...)".to_owned(),
        Statement::Nop => "nop".to_owned(),
    }
}

/// A terminator as text.
pub fn format_terminator(term: &Terminator) -> (s: String)
    ensures
        s@ == terminator_text(*term),
{
    match &term.kind {
        TerminatorKind::Goto { target } => {
            let mut s = "goto -> bb".to_owned();
            push_decimal(&mut s, target.0 as u64);
            s
        },
        TerminatorKind::Return => "return".to_owned(),
        TerminatorKind::Unwind => "unwind".to_owned(),
        TerminatorKind::Call { func, args, destination, target } => {
            let mut s = format_place(destination);
            s.append(" = ");
            s.append(format_operand(func).as_str());
            s.append("(");
            let ghost texts = args@.map_values(|a: Operand| operand_text(a));
            let ghost start = s@;
            let mut i: usize = 0;
            while i < args.len()
                invariant
                    i <= args@.len(),
                    texts == args@.map_values(|a: Operand| operand_text(a)),
                    s@ == start + join_with(texts.take(i as int), ", "@),
                decreases args@.len() - i,
            {
                proof {
                    assert(texts.take(i + 1) =~= texts.take(i as int).push(texts[i as int]));
                    lemma_join_push(texts.take(i as int), ", "@, texts[i as int]);
                }
                if i > 0 {
                    s.append(", ");
                } else {
                    proof {
                        assert(texts.take(0) =~= Seq::<Seq<char>>::empty());
                    }
                }
                s.append(format_operand(&args[i]).as_str());
                i += 1;
            }
            proof {
                assert(texts.take(i as int) =~= texts);
            }
            s.append(")");
            match target {
                Some(b) => {
                    s.append(" -> bb");
                    push_decimal(&mut s, b.0 as u64);
                },
                None => {},
            }
            s
        },
        _ => terminator_kind_debug(&term.kind),
    }
}

/// Appends a block's text.
fn push_block(out: &mut String, i: usize, block: &BasicBlockData)
    ensures
        final(out)@ == old(out)@ + block_text(i as nat, *block),
{
    out.append("\nbb");
    push_decimal(out, i as u64);
    out.append(": {\n");
    let ghost start = out@;
    let mut k: usize = 0;
    while k < block.statements.len()
        invariant
            k <= block.statements@.len(),
            out@ == start + statements_text(block.statements@.take(k as int)),
        decreases block.statements@.len() - k,
    {
        proof {
            assert(block.statements@.take(k + 1).drop_last() =~= block.statements@.take(k as int));
        }
        out.append("        ");
        out.append(format_statement(&block.statements[k]).as_str());
        out.append(";\n");
        k += 1;
    }
    proof {
        assert(block.statements@.take(k as int) =~= block.statements@);
    }
    match &block.terminator {
        Some(term) => {
            out.append("        ");
            out.append(format_terminator(term).as_str());
            out.append("\n");
        },
        None => {},
    }
    out.append("    }\n");
}

/// A MIR body named `name` as text.
pub fn print_mir(body: &MirBody, name: &str) -> (s: String)
    requires
        body.arg_count < body.local_decls@.len(),
        body.local_decls@.len() <= u32::MAX,
    ensures
        s@ == mir_text(*body, name@),
{
    let mut output = "fn ".to_owned();
    output.append(name);
    output.append("(\n");
    let ghost decls = body.local_decls@;
    let ghost head = output@;
    let mut i: usize = 0;
    while i < body.arg_count
        invariant
            i <= body.arg_count,
            body.arg_count < decls.len(),
            decls == body.local_decls@,
            decls.len() <= u32::MAX,
            output@ == head + args_text(decls, i as nat),
        decreases body.arg_count - i,
    {
        output.append("    ");
        push_local(&mut output, i as u32);
        output.append(": ");
        output.append(debug_text(&body.local_decls[i].ty).as_str());
        output.append(",\n");
        i += 1;
    }
    output.append(") -> ");
    output.append(debug_text(&body.local_decls[0].ty).as_str());
    output.append(" {\n");
    let ghost mid = output@;
    let mut j: usize = body.arg_count + 1;
    while j < body.local_decls.len()
        invariant
            body.arg_count + 1 <= j <= decls.len(),
            decls == body.local_decls@,
            decls.len() <= u32::MAX,
            output@ == mid + lets_text(decls, (body.arg_count + 1) as nat, j as nat),
        decreases decls.len() - j,
    {
        output.append("    let ");
        push_local(&mut output, j as u32);
        output.append(": ");
        output.append(debug_text(&body.local_decls[j].ty).as_str());
        output.append(";\n");
        j += 1;
    }
    let ghost tail = output@;
    let mut b: usize = 0;
    while b < body.basic_blocks.len()
        invariant
            b <= body.basic_blocks@.len(),
            output@ == tail + blocks_text(body.basic_blocks@.take(b as int)),
        decreases body.basic_blocks@.len() - b,
    {
        proof {
            assert(body.basic_blocks@.take(b + 1).drop_last() =~= body.basic_blocks@.take(b as int));
        }
        push_block(&mut output, b, &body.basic_blocks[b]);
        b += 1;
    }
    proof {
        assert(body.basic_blocks@.take(b as int) =~= body.basic_blocks@);
    }
    output.append("}\n");
    output
}

} // verus!
