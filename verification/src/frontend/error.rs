//! Errors reported by the front end.
use vstd::prelude::*;

use crate::frontend::ast::{Type, TypeV, type_view, types_view, lemma_types_view};
use crate::meta::Meta;
use crate::util::text::{concat, concat3};

verus! {

#[derive(Debug, PartialEq)]
pub enum FrontendErrorKind {
    ParseError { message: String },
    EnvError { message: String },
    TypeError { expected: Type, actual: Type },
    ArgumentError { message: String },
    SystemError { message: String },
}

/// standardized type to remember all frontend errors
pub type FrontendError<LocationT> = Meta<FrontendErrorKind, LocationT>;

/// a string as Rust's `Debug` writes it, for strings without quotes, backslashes or control
/// characters (all identifiers of the language)
pub open spec fn quoted(s: Seq<char>) -> Seq<char> {
    "\""@ + s + "\""@
}

/// a type written as its derived `Debug` form (`Class { ident: "A" }`, `Array { item_t: Int }`)
pub open spec fn type_text(t: TypeV) -> Seq<char>
    decreases t, 1nat,
{
    match t {
        TypeV::Int => "Int"@,
        TypeV::Str => "Str"@,
        TypeV::Bool => "Bool"@,
        TypeV::Void => "Void"@,
        TypeV::Null => "Null"@,
        TypeV::Class { ident } => "Class { ident: "@ + quoted(ident) + " }"@,
        TypeV::Array { item_t } => "Array { item_t: "@ + type_text(*item_t) + " }"@,
        TypeV::Function { args, ret } => "Function { args: ["@ + types_text(args) + "], ret: "@
            + type_text(*ret) + " }"@,
        TypeV::Error => "Error"@,
        TypeV::Any => "Any"@,
        TypeV::Object => "Object"@,
        TypeV::Reference { t } => "Reference { t: "@ + type_text(*t) + " }"@,
        TypeV::BuiltinClass { ident } => "BuiltinClass { ident: "@ + quoted(ident) + " }"@,
    }
}

/// types separated by `, `
pub open spec fn types_text(ts: Seq<TypeV>) -> Seq<char>
    decreases ts, 0nat,
{
    if ts.len() == 0 {
        Seq::empty()
    } else if ts.len() == 1 {
        type_text(ts[0])
    } else {
        types_text(ts.subrange(0, ts.len() - 1)) + ", "@ + type_text(ts[ts.len() - 1])
    }
}

/// the text of a type (its `Debug` form)
pub fn type_to_text(t: &Type) -> (r: String)
    ensures
        r@ == type_text(t@),
    decreases t, 1nat,
{
    match t {
        Type::Int => String::from_str("Int"),
        Type::Str => String::from_str("Str"),
        Type::Bool => String::from_str("Bool"),
        Type::Void => String::from_str("Void"),
        Type::Null => String::from_str("Null"),
        Type::Class { ident } => {
            let q = concat3("\"", ident.as_str(), "\"");
            concat3("Class { ident: ", q.as_str(), " }")
        },
        Type::Array { item_t } => {
            let inner = type_to_text(item_t);
            concat3("Array { item_t: ", inner.as_str(), " }")
        },
        Type::Function { args, ret } => {
            let list = types_to_text(args);
            let ret_text = type_to_text(ret);
            let head = concat3("Function { args: [", list.as_str(), "], ret: ");
            concat3(head.as_str(), ret_text.as_str(), " }")
        },
        Type::Error => String::from_str("Error"),
        Type::Any => String::from_str("Any"),
        Type::Object => String::from_str("Object"),
        Type::Reference { t } => {
            let inner = type_to_text(t);
            concat3("Reference { t: ", inner.as_str(), " }")
        },
        Type::BuiltinClass { ident } => {
            let q = concat3("\"", ident.as_str(), "\"");
            concat3("BuiltinClass { ident: ", q.as_str(), " }")
        },
    }
}

/// the texts of types separated by `, `
pub fn types_to_text(ts: &Vec<Box<Type>>) -> (r: String)
    ensures
        r@ == types_text(types_view(ts@)),
    decreases ts, 0nat,
{
    let mut r = String::new();
    let mut i: usize = 0;
    proof {
        lemma_types_view(ts@);
        assert(types_view(ts@).subrange(0, 0) =~= Seq::<TypeV>::empty());
    }
    while i < ts.len()
        invariant
            i <= ts.len(),
            types_view(ts@).len() == ts@.len(),
            forall|j: int| 0 <= j < ts@.len() ==> #[trigger] types_view(ts@)[j] == type_view(*ts@[j]),
            r@ == types_text(types_view(ts@).subrange(0, i as int)),
        decreases ts.len() - i,
    {
        proof {
            assert(decreases_to!(ts => ts@));
            assert(decreases_to!(ts@ => ts@[i as int]));
        }
        let item = type_to_text(&ts[i]);
        let ghost prefix = types_view(ts@).subrange(0, i as int + 1);
        proof {
            assert(prefix.subrange(0, prefix.len() - 1) =~= types_view(ts@).subrange(0, i as int));
            assert(prefix[prefix.len() - 1] == type_view(*ts@[i as int]));
        }
        if i == 0 {
            r = item;
        } else {
            r = concat3(r.as_str(), ", ", item.as_str());
        }
        i += 1;
    }
    proof {
        assert(types_view(ts@).subrange(0, ts@.len() as int) =~= types_view(ts@));
    }
    r
}

/// text of the kind of an error, as the compiler reports it
pub open spec fn kind_text(k: FrontendErrorKind) -> Seq<char> {
    match k {
        FrontendErrorKind::ParseError { message } => "ParseError: "@ + message@,
        FrontendErrorKind::EnvError { message } => "EnvironmentError: "@ + message@,
        FrontendErrorKind::TypeError { expected, actual } => "TypeError: expected `"@
            + type_text(expected@) + "`, got `"@ + type_text(actual@) + "`"@,
        FrontendErrorKind::ArgumentError { message } => "ArgumentError: "@ + message@,
        FrontendErrorKind::SystemError { message } => "SystemError: "@ + message@,
    }
}

impl FrontendErrorKind {
    /// the message of the error, prefixed by its kind
    pub fn to_string(&self) -> (r: String)
        ensures
            r@ == kind_text(*self),
    {
        match self {
            FrontendErrorKind::ParseError { message } => concat("ParseError: ", message.as_str()),
            FrontendErrorKind::EnvError { message } => concat("EnvironmentError: ", message.as_str()),
            FrontendErrorKind::TypeError { expected, actual } => {
                let e = type_to_text(expected);
                let a = type_to_text(actual);
                let head = concat3("TypeError: expected `", e.as_str(), "`, got `");
                concat3(head.as_str(), a.as_str(), "`")
            },
            FrontendErrorKind::ArgumentError { message } => concat("ArgumentError: ", message.as_str()),
            FrontendErrorKind::SystemError { message } => concat("SystemError: ", message.as_str()),
        }
    }
}

} // verus!
