//! Front end of the compiler: syntax tree, parser, preprocessing and type checking.
pub mod ast;
pub mod parser;
pub mod error;
pub mod preprocessor;
pub mod typechecker;

use vstd::prelude::*;

use crate::frontend::error::FrontendError;
use crate::frontend::parser::parse_program;
use crate::frontend::preprocessor::{optimize_constants, organize_blocks};
use crate::frontend::typechecker::check_types;
use crate::meta::{LocationMeta, Meta, TypeMeta};
use crate::frontend::ast::{TypeV, arg_types};
use crate::frontend::preprocessor::block_organizer::block_returns;
use crate::frontend::typechecker::function_type;
use crate::util::env::lemma_unique_keys_same_keys;
use crate::util::text::usize_to_string;

verus! {

pub type CheckedProgram = ast::Program<TypeMeta>;

pub type Error = FrontendError<String>;

/// the function is `int main()`
pub open spec fn is_main(f: ast::Function<TypeMeta>) -> bool {
    &&& f.item.ident@ == "main"@
    &&& f.meta.t@ == function_type(Seq::empty(), TypeV::Int)
}

/// what the front end guarantees of the programs it accepts: unique names of classes, of
/// functions and of the members of each class, at least one definition, a function
/// `int main()`, and a return at the end of every path through every function
pub open spec fn frontend_checked(p: CheckedProgram) -> bool {
    &&& p.classes.wf()
    &&& p.functions.wf()
    &&& forall|i: int| 0 <= i < p.classes.entries@.len() ==> (#[trigger] p.classes.entries@[i]).1.item.vars.wf()
        && p.classes.entries@[i].1.item.methods.wf()
    &&& p.classes.entries@.len() + p.functions.entries@.len() >= 1
    &&& exists|i: int| 0 <= i < p.functions.entries@.len() && is_main(#[trigger] p.functions.entries@[i].1)
    &&& forall|i: int| 0 <= i < p.functions.entries@.len() ==> block_returns(#[trigger] p.functions.entries@[i].1.item.block)
}

/// number of new line characters in `s`
pub open spec fn count_newlines(s: Seq<char>) -> nat
    decreases s.len(),
{
    if s.len() == 0 {
        0
    } else {
        count_newlines(s.drop_last()) + if s.last() == '\n' { 1nat } else { 0nat }
    }
}

/// number of characters of `s` after its last new line character (all of them if it has none)
pub open spec fn column_of(s: Seq<char>) -> nat
    decreases s.len(),
{
    if s.len() == 0 {
        0
    } else if s.last() == '\n' {
        0
    } else {
        column_of(s.drop_last()) + 1
    }
}

/// the characters of `source` whose UTF-8 encoding is its first `offset` bytes
pub open spec fn chars_before(source: Seq<char>, offset: usize) -> Seq<char> {
    source.subrange(0, choose|c: int| 0 <= c <= source.len() && vstd::utf8::encode_utf8(source.subrange(0, c)).len() == offset)
}

/// `file:line:column` of the byte `offset` of `source`, in the file called `file_name`: the line
/// counts the new lines before the offset, the column the characters after the last of them,
/// both from 1
pub open spec fn codemap_location(file_name: Seq<char>, source: Seq<char>, offset: usize) -> Seq<char> {
    let before = chars_before(source, offset);
    file_name + ":"@ + crate::util::text::decimal(count_newlines(before) + 1) + ":"@
        + crate::util::text::decimal(column_of(before) + 1)
}

/// the source is short enough for the positions of the codemap crate: it numbers the bytes of
/// a file from 1 in a `u32`, and the position after the last byte must fit
pub open spec fn codemap_fits(source: Seq<char>) -> bool {
    vstd::utf8::encode_utf8(source).len() < u32::MAX
}

/// the UTF-8 encoding of a character sequence grows by the encoding of each pushed character
pub proof fn lemma_encode_utf8_push(s: Seq<char>, c: char)
    ensures
        vstd::utf8::encode_utf8(s.push(c)).len() == vstd::utf8::encode_utf8(s).len() + vstd::utf8::encode_scalar(c as u32).len(),
    decreases s.len(),
{
    let t = s.push(c);
    if s.len() == 0 {
        assert(t.drop_first() =~= Seq::<char>::empty());
        assert(t[0] == c);
        assert(vstd::utf8::encode_utf8(t.drop_first()).len() == 0);
        assert(vstd::utf8::encode_utf8(t) == vstd::utf8::encode_scalar(t[0] as u32) + vstd::utf8::encode_utf8(t.drop_first()));
    } else {
        lemma_encode_utf8_push(s.drop_first(), c);
        assert(t.drop_first() =~= s.drop_first().push(c));
        assert(t[0] == s[0]);
        assert(vstd::utf8::encode_utf8(t) == vstd::utf8::encode_scalar(t[0] as u32) + vstd::utf8::encode_utf8(t.drop_first()));
        assert(vstd::utf8::encode_utf8(s) == vstd::utf8::encode_scalar(s[0] as u32) + vstd::utf8::encode_utf8(s.drop_first()));
    }
}

/// a prefix of a character sequence has an encoding no longer than the whole sequence's
pub proof fn lemma_encode_utf8_prefix(s: Seq<char>, i: int)
    requires
        0 <= i <= s.len(),
    ensures
        vstd::utf8::encode_utf8(s.subrange(0, i)).len() <= vstd::utf8::encode_utf8(s).len(),
    decreases s.len() - i,
{
    if i == s.len() {
        assert(s.subrange(0, i) =~= s);
    } else {
        lemma_encode_utf8_prefix(s, i + 1);
        assert(s.subrange(0, i + 1) =~= s.subrange(0, i).push(s[i]));
        lemma_encode_utf8_push(s.subrange(0, i), s[i]);
    }
}

/// checks that the source is short enough for the positions of the codemap crate
pub fn fits_codemap(source: &String) -> (r: bool)
    ensures
        r == codemap_fits(source@),
{
    let n = source.unicode_len();
    let mut total: u64 = 0;
    let mut i: usize = 0;
    while i < n
        invariant
            n == source@.len(),
            i <= n,
            total == vstd::utf8::encode_utf8(source@.subrange(0, i as int)).len(),
            total < u32::MAX,
        decreases n - i,
    {
        let c = source.as_str().get_char(i);
        let w = crate::frontend::parser::lexer::utf8_len(c);
        proof {
            assert(source@.subrange(0, i + 1) =~= source@.subrange(0, i as int).push(c));
            lemma_encode_utf8_push(source@.subrange(0, i as int), c);
        }
        total = total + w as u64;
        i += 1;
        if total >= 0xffff_ffff {
            proof {
                lemma_encode_utf8_prefix(source@, i as int);
            }
            return false;
        }
    }
    assert(source@.subrange(0, n as int) =~= source@);
    true
}

/// Location of a byte offset, by the codemap crate: `CodeMap::add_file` with the name and the
/// source, then `CodeMap::look_up_pos` at that offset from the start of the file, written with
/// the `Display` of `codemap::Loc` (`name:line:column`, counted from 1, where the crate starts
/// lines after each `\n` and counts columns in characters). The offset must be a character
/// boundary of the source (or its end), and the source short enough for the `u32` positions
/// of the crate, where the codemap crate neither panics nor wraps around.
#[verifier::external_body]
fn locate_with_codemap(file_name: &String, source: &String, offset: usize) -> (r: String)
    requires
        codemap_fits(source@),
        vstd::utf8::is_char_boundary(vstd::utf8::encode_utf8(source@), offset as int),
    ensures
        r@ == codemap_location(file_name@, source@, offset),
{
    let mut codemap = codemap::CodeMap::new();
    let file = codemap.add_file(file_name.clone(), source.clone());
    let pos = file.span.low() + (offset as u64);
    codemap.look_up_pos(pos).to_string()
}

/// text of the location of an error: where the codemap crate can map the byte offset to a line
/// and a column (the offset is a character boundary of a source that fits its positions), its
/// `file:line:column`, and otherwise the offset itself
pub fn locate_error(e: FrontendError<LocationMeta>, file_name: &String, source: &String) -> (r: Error)
    ensures
        r.item == e.item,
        r.meta@ == location_text(file_name@, source@, e.meta.offset),
{
    let offset = e.meta.offset;
    let location = if fits_codemap(source) && source.as_str().is_char_boundary(offset) {
        locate_with_codemap(file_name, source, offset)
    } else {
        usize_to_string(offset)
    };
    Meta::new(e.item, location)
}

/// the front end pipeline on source code: parsing, optimization of constant conditions,
/// organization of blocks and type checking (errors are located by byte offsets)
pub fn check_code(source_code: String) -> (r: Result<CheckedProgram, Vec<FrontendError<LocationMeta>>>)
    ensures
        source_code@.len() == 0 ==> r is Err,
        r matches Err(e) ==> e@.len() >= 1,
        r matches Ok(p) ==> frontend_checked(p),
{
    let parsed = parse_program(source_code)?;
    let ghost p0 = parsed;
    let optimized = optimize_constants(parsed)?;
    let ghost p1 = optimized;
    let organized = organize_blocks(optimized)?;
    let ghost o = organized;
    let checked = check_types(organized);
    proof {
        if checked is Ok {
            let p = checked->Ok_0;
            lemma_unique_keys_same_keys(p0.classes.entries@, p1.classes.entries@);
            lemma_unique_keys_same_keys(p1.classes.entries@, o.classes.entries@);
            lemma_unique_keys_same_keys(o.classes.entries@, p.classes.entries@);
            lemma_unique_keys_same_keys(p0.functions.entries@, p1.functions.entries@);
            lemma_unique_keys_same_keys(p1.functions.entries@, o.functions.entries@);
            lemma_unique_keys_same_keys(o.functions.entries@, p.functions.entries@);
            assert forall|i: int| 0 <= i < p.classes.entries@.len() implies (#[trigger] p.classes.entries@[i]).1.item.vars.wf()
                && p.classes.entries@[i].1.item.methods.wf() by {
                assert(p0.classes.keys().len() == p0.classes.entries@.len());
                assert(p1.classes.keys().len() == p1.classes.entries@.len());
                assert(o.classes.keys().len() == o.classes.entries@.len());
                assert(p.classes.keys().len() == p.classes.entries@.len());
                let c0 = p0.classes.entries@[i].1.item;
                let c1 = p1.classes.entries@[i].1.item;
                let c2 = o.classes.entries@[i].1.item;
                let c3 = p.classes.entries@[i].1.item;
                lemma_unique_keys_same_keys(c0.vars.entries@, c1.vars.entries@);
                lemma_unique_keys_same_keys(c1.vars.entries@, c2.vars.entries@);
                lemma_unique_keys_same_keys(c2.vars.entries@, c3.vars.entries@);
                lemma_unique_keys_same_keys(c0.methods.entries@, c1.methods.entries@);
                lemma_unique_keys_same_keys(c1.methods.entries@, c2.methods.entries@);
                lemma_unique_keys_same_keys(c2.methods.entries@, c3.methods.entries@);
            }
            assert(p.functions.keys().len() == p.functions.entries@.len());
            assert(p.classes.keys().len() == p.classes.entries@.len());
            assert(o.functions.keys().len() == o.functions.entries@.len());
            assert forall|i: int| 0 <= i < p.functions.entries@.len() implies
                block_returns(#[trigger] p.functions.entries@[i].1.item.block) by {
                assert(block_returns(o.functions.entries@[i].1.item.block));
            }
            let j = choose|j: int| 0 <= j < o.functions.entries@.len() && {
                let f = #[trigger] o.functions.entries@[j].1;
                &&& f.item.ident@ == "main"@
                &&& f.item.args@.len() == 0
                &&& f.item.ret@ == TypeV::Int
            };
            assert(arg_types(o.functions.entries@[j].1.item.args@) =~= Seq::<TypeV>::empty());
            assert(is_main(p.functions.entries@[j].1));
        }
    }
    checked
}

/// location text of an error of the source code: `file:line:column` where the codemap crate can
/// map the byte offset, and otherwise the offset itself
pub open spec fn location_text(file_name: Seq<char>, source: Seq<char>, offset: usize) -> Seq<char> {
    if codemap_fits(source) && vstd::utf8::is_char_boundary(vstd::utf8::encode_utf8(source), offset as int) {
        codemap_location(file_name, source, offset)
    } else {
        crate::util::text::decimal(offset as nat)
    }
}

/// maps the errors, in their order, to their locations in the source code
pub fn locate_errors(errors: Vec<FrontendError<LocationMeta>>, file_name: &String, source: &String) -> (r: Vec<Error>)
    ensures
        r@.len() == errors@.len(),
        forall|i: int| 0 <= i < r@.len() ==> (#[trigger] r@[i]).item == errors@[i].item
            && r@[i].meta@ == location_text(file_name@, source@, errors@[i].meta.offset),
{
    let ghost all = errors@;
    let mut located: Vec<Error> = Vec::new();
    let mut rest = errors;
    let total = rest.len();
    let mut k: usize = 0;
    while rest.len() > 0
        invariant
            all.len() == total,
            rest@.len() + k == total,
            located@.len() == k,
            forall|i: int| 0 <= i < rest@.len() ==> rest@[i] == all[k + i],
            forall|i: int| 0 <= i < k ==> (#[trigger] located@[i]).item == all[i].item
                && located@[i].meta@ == location_text(file_name@, source@, all[i].meta.offset),
        decreases rest.len(),
    {
        let e = rest.remove(0);
        assert(e == all[k as int]);
        located.push(locate_error(e, file_name, source));
        k += 1;
    }
    located
}

/// process source code of the file given by name; errors are mapped to their locations in
/// the source code
pub fn process_code(file_name: String, source_code: String) -> (r: Result<CheckedProgram, Vec<Error>>)
    ensures
        source_code@.len() == 0 ==> r is Err,
        r matches Err(e) ==> e@.len() >= 1,
        r matches Ok(p) ==> frontend_checked(p),
        r matches Err(e) ==> exists|found: Seq<FrontendError<LocationMeta>>| #![trigger found.len()] {
            &&& found.len() == e@.len()
            &&& forall|i: int| 0 <= i < e@.len() ==> (#[trigger] e@[i]).item == found[i].item
                && e@[i].meta@ == location_text(file_name@, source_code@, found[i].meta.offset)
        },
{
    let source = source_code.clone();
    match check_code(source_code) {
        Ok(program) => Ok(program),
        Err(errors) => {
            let ghost found = errors@;
            let located = locate_errors(errors, &file_name, &source);
            proof {
                assert(found.len() == located@.len());
            }
            Err(located)
        },
    }
}

} // verus!
