//! Reading a source file's text: its top-level items, as `syn` parses
//! them, and what they declare to the engine builder (components, traits,
//! trait implementations and tasks).

use vstd::prelude::*;
use vstd::string::StrSliceExecFns;
use quote::ToTokens;
use syn::parse::Parser;
use crate::build::components::ComponentType;
use crate::build::declarations::{
    components_of, components_of_items, components_view, input_of_parts, is_text, mentions_task,
    segment_outputs_parts, tasks_of_fns, Attr, FnItem, Param, PathType, Segment, SourceItem, TypeArg,
};
use crate::build::package::has_prefix;
use crate::build::archetypes::tasks_view;
use crate::build::tasks::{InputView, OutputView, Task, TaskView};

verus! {

/// What a printed type is: a path (its text and segments), a tuple (its
/// printed elements), or something else.
#[derive(Debug)]
pub enum TypeShape {
    Path(String, Vec<(String, Vec<Option<String>>)>),
    Tuple(Vec<String>),
    Other,
}

/// The kind of a top-level item of a source file.
#[derive(Debug, Clone, Copy)]
pub enum ItemKind {
    Struct,
    Enum,
    Type,
    Trait,
    Macro,
    Fn,
    Other,
}

/// The top-level items of a source text, each with its kind and its
/// printed text, as `syn::parse_file` reads them; none where the text is
/// not a Rust file.
pub uninterp spec fn source_items(text: Seq<char>) -> Option<Seq<(ItemKind, Seq<char>)>>;

/// The name and attributes of a printed struct, enum, type alias or trait,
/// as `syn::parse_str::<syn::Item>` reads them.
pub uninterp spec fn item_header(item: Seq<char>) -> Option<(String, Vec<Attr>)>;

/// The last segment of a printed macro call's path and the printed tokens
/// of its arguments, as `syn::parse_str::<syn::ItemMacro>` reads them.
pub uninterp spec fn macro_call(item: Seq<char>) -> Option<(Option<String>, String)>;

/// The identifier a text is, as `syn::parse_str::<syn::Ident>` reads it.
pub uninterp spec fn ident_text(t: Seq<char>) -> Option<String>;

/// The printed types of a comma-separated list of types, as
/// `syn::punctuated::Punctuated::parse_terminated` reads it.
pub uninterp spec fn type_list(t: Seq<char>) -> Option<Vec<String>>;

/// The name, printed attributes, printed parameters and printed return
/// type (none for `()` by default) of a printed function, as
/// `syn::parse_str::<syn::ItemFn>` reads them.
pub uninterp spec fn fn_header(item: Seq<char>) -> Option<(String, Vec<String>, Vec<String>, Option<String>)>;

/// For a printed typed parameter, the identifier it binds (none where its
/// pattern is not an identifier) and its printed type, as
/// `syn::parse_str::<syn::FnArg>` reads them; none for `self`.
pub uninterp spec fn fn_param(p: Seq<char>) -> Option<(Option<String>, String)>;

/// What a printed type is, as `syn::parse_str::<syn::Type>` reads it: a
/// path, with its text and each segment's identifier with each of its
/// arguments in angle brackets (the printed type where it is a type); a
/// tuple, with its printed elements; or something else (or no type).
pub uninterp spec fn type_shape(t: Seq<char>) -> TypeShape;

/// For a printed path type: its text, the identifier of its last segment
/// and that segment's first argument where it is a type; none for another
/// type.
pub open spec fn path_type(t: Seq<char>) -> Option<(String, Option<String>, Option<String>)> {
    match type_shape(t) {
        TypeShape::Path(text, segs) => Some((
            text,
            if segs@.len() > 0 { Some(segs@.last().0) } else { None },
            if segs@.len() > 0 && segs@.last().1@.len() > 0 { segs@.last().1@[0] } else { None },
        )),
        _ => None,
    }
}

/// The printed elements of a printed tuple type; none for another type.
pub open spec fn tuple_elems(t: Seq<char>) -> Option<Vec<String>> {
    match type_shape(t) {
        TypeShape::Tuple(v) => Some(v),
        _ => None,
    }
}

/// The segments of a printed path type; none for another type.
pub open spec fn path_segments(t: Seq<char>) -> Option<Vec<(String, Vec<Option<String>>)>> {
    match type_shape(t) {
        TypeShape::Path(_, segs) => Some(segs),
        _ => None,
    }
}

/// The views of kinds and texts.
pub open spec fn kinds_texts(v: Seq<(ItemKind, String)>) -> Seq<(ItemKind, Seq<char>)> {
    v.map_values(|p: (ItemKind, String)| (p.0, p.1@))
}

/// Calls `syn::parse_file`, and prints each item with `quote::ToTokens`.
/// Trusted: the result is what `source_items` names for the text.
#[verifier::external_body]
fn parse_source_items(text: &str) -> (r: Option<Vec<(ItemKind, String)>>)
    ensures
        match r {
            Some(v) => source_items(text@) == Some(kinds_texts(v@)),
            None => source_items(text@) is None,
        },
{
    let mut out = Vec::new();
    for item in syn::parse_file(text).ok()?.items {
        let kind = match &item {
            syn::Item::Struct(_) => ItemKind::Struct,
            syn::Item::Enum(_) => ItemKind::Enum,
            syn::Item::Type(_) => ItemKind::Type,
            syn::Item::Trait(_) => ItemKind::Trait,
            syn::Item::Macro(_) => ItemKind::Macro,
            syn::Item::Fn(_) => ItemKind::Fn,
            _ => ItemKind::Other,
        };
        out.push((kind, item.to_token_stream().to_string()));
    }
    Some(out)
}

/// Calls `syn::parse_str::<syn::Item>`; attributes are printed with
/// `quote::ToTokens`.
/// Trusted: the result is what `item_header` names for the text.
#[verifier::external_body]
fn header_of(item: &str) -> (r: Option<(String, Vec<Attr>)>)
    ensures
        r == item_header(item@),
{
    let (ident, attrs) = match syn::parse_str::<syn::Item>(item).ok()? {
        syn::Item::Struct(i) => (i.ident, i.attrs),
        syn::Item::Enum(i) => (i.ident, i.attrs),
        syn::Item::Type(i) => (i.ident, i.attrs),
        syn::Item::Trait(i) => (i.ident, i.attrs),
        _ => return None,
    };
    let attrs = attrs.iter().map(|a| Attr {
        ident: a.path().get_ident().map(|i| i.to_string()),
        text: a.to_token_stream().to_string(),
    });
    Some((ident.to_string(), attrs.collect()))
}

/// Calls `syn::parse_str::<syn::ItemMacro>`.
/// Trusted: the result is what `macro_call` names for the text.
#[verifier::external_body]
fn macro_call_of(item: &str) -> (r: Option<(Option<String>, String)>)
    ensures
        r == macro_call(item@),
{
    let m = syn::parse_str::<syn::ItemMacro>(item).ok()?;
    Some((m.mac.path.segments.last().map(|s| s.ident.to_string()), m.mac.tokens.to_string()))
}

/// Calls `syn::parse_str::<syn::Ident>`.
/// Trusted: the result is what `ident_text` names for the text.
#[verifier::external_body]
pub(crate) fn ident_of(t: &str) -> (r: Option<String>)
    ensures
        r == ident_text(t@),
{
    match syn::parse_str::<syn::Ident>(t) {
        Ok(i) => Some(i.to_string()),
        Err(_) => None,
    }
}

/// Calls `syn::punctuated::Punctuated::<syn::Type, syn::token::Comma>::parse_terminated`.
/// Trusted: the result is what `type_list` names for the text.
#[verifier::external_body]
fn type_list_of(t: &str) -> (r: Option<Vec<String>>)
    ensures
        r == type_list(t@),
{
    let types = syn::punctuated::Punctuated::<syn::Type, syn::token::Comma>::parse_terminated.parse_str(t).ok()?;
    Some(types.iter().map(|ty| ty.to_token_stream().to_string()).collect())
}

/// Calls `syn::parse_str::<syn::ItemFn>`; parts are printed with
/// `quote::ToTokens`.
/// Trusted: the result is what `fn_header` names for the text.
#[verifier::external_body]
fn fn_header_of(item: &str) -> (r: Option<(String, Vec<String>, Vec<String>, Option<String>)>)
    ensures
        r == fn_header(item@),
{
    let f = syn::parse_str::<syn::ItemFn>(item).ok()?;
    let output = match &f.sig.output {
        syn::ReturnType::Type(_, t) => Some(t.to_token_stream().to_string()),
        syn::ReturnType::Default => None,
    };
    let attrs = f.attrs.iter().map(|a| a.to_token_stream().to_string()).collect();
    let params = f.sig.inputs.iter().map(|p| p.to_token_stream().to_string()).collect();
    Some((f.sig.ident.to_string(), attrs, params, output))
}

/// Calls `syn::parse_str::<syn::FnArg>`.
/// Trusted: the result is what `fn_param` names for the text.
#[verifier::external_body]
fn fn_param_of(p: &str) -> (r: Option<(Option<String>, String)>)
    ensures
        r == fn_param(p@),
{
    match syn::parse_str::<syn::FnArg>(p).ok()? {
        syn::FnArg::Typed(t) => Some((
            match *t.pat {
                syn::Pat::Ident(i) => Some(i.ident.to_string()),
                _ => None,
            },
            t.ty.to_token_stream().to_string(),
        )),
        syn::FnArg::Receiver(_) => None,
    }
}

/// Calls `syn::parse_str::<syn::Type>`; parts are printed with
/// `quote::ToTokens`.
/// Trusted: the result is what `type_shape` names for the text.
#[verifier::external_body]
fn type_shape_of(t: &str) -> (r: TypeShape)
    ensures
        r == type_shape(t@),
{
    match syn::parse_str::<syn::Type>(t) {
        Ok(syn::Type::Path(p)) => TypeShape::Path(p.to_token_stream().to_string(), p.path.segments.iter().map(|s| (
            s.ident.to_string(),
            match &s.arguments {
                syn::PathArguments::AngleBracketed(a) => a.args.iter().map(|g| match g {
                    syn::GenericArgument::Type(ty) => Some(ty.to_token_stream().to_string()),
                    _ => None,
                }).collect(),
                _ => Vec::new(),
            },
        )).collect()),
        Ok(syn::Type::Tuple(tt)) => TypeShape::Tuple(tt.elems.iter().map(|e| e.to_token_stream().to_string()).collect()),
        _ => TypeShape::Other,
    }
}

/// The text, last segment identifier and first type argument of a printed
/// path type.
fn path_type_of(t: &str) -> (r: Option<(String, Option<String>, Option<String>)>)
    ensures
        r == path_type(t@),
{
    match type_shape_of(t) {
        TypeShape::Path(text, segs) => {
            let n = segs.len();
            if n == 0 {
                return Some((text, None, None));
            }
            let last = segs[n - 1].0.clone();
            let first = if segs[n - 1].1.len() > 0 {
                match &segs[n - 1].1[0] {
                    Some(a) => Some(a.clone()),
                    None => None,
                }
            } else {
                None
            };
            Some((text, Some(last), first))
        },
        _ => None,
    }
}

/// The printed elements of a printed tuple type.
fn tuple_elems_of(t: &str) -> (r: Option<Vec<String>>)
    ensures
        r == tuple_elems(t@),
{
    match type_shape_of(t) {
        TypeShape::Tuple(v) => Some(v),
        _ => None,
    }
}

/// The segments of a printed path type.
fn path_segments_of(t: &str) -> (r: Option<Vec<(String, Vec<Option<String>>)>>)
    ensures
        r == path_segments(t@),
{
    match type_shape_of(t) {
        TypeShape::Path(_, segs) => Some(segs),
        _ => None,
    }
}

/// The first position of a space in `s`, or its length where it has none.
pub open spec fn first_space(s: Seq<char>) -> int {
    if exists|i: int| 0 <= i < s.len() && s[i] == ' ' {
        choose|i: int| 0 <= i < s.len() && s[i] == ' ' && forall|j: int| 0 <= j < i ==> s[j] != ' '
    } else {
        s.len() as int
    }
}

/// The printed arguments of a `trait_for!` call, read as `trait NAME =>
/// TYPES`: the name's text and the types' text.
pub open spec fn trait_for_parts(t: Seq<char>) -> Option<(Seq<char>, Seq<char>)> {
    if has_prefix(t, "trait "@) {
        let body = t.skip(6);
        let k = first_space(body);
        let after = body.skip(k);
        if has_prefix(after, " => "@) {
            Some((body.take(k), after.skip(4)))
        } else if after == " =>"@ {
            Some((body.take(k), Seq::empty()))
        } else {
            None
        }
    } else {
        None
    }
}

/// The trait and the printed types of a `trait_for!` call; none where its
/// arguments do not read.
pub open spec fn trait_for_read(toks: Seq<char>) -> Option<(String, Vec<String>)> {
    match trait_for_parts(toks) {
        Some((n, rest)) => match (ident_text(n), type_list(rest)) {
            (Some(a), Some(b)) => Some((a, b)),
            _ => None,
        },
        None => None,
    }
}

/// What a top-level item of kind `kind` and printed text `t` is, as far as
/// components are concerned; none for a `trait_for!` call whose arguments
/// do not read.
pub open spec fn item_source(kind: ItemKind, t: Seq<char>) -> Option<SourceItem> {
    match kind {
        ItemKind::Struct | ItemKind::Enum | ItemKind::Type => match item_header(t) {
            Some((n, a)) => Some(SourceItem::Data(n, a)),
            None => Some(SourceItem::Other),
        },
        ItemKind::Trait => match item_header(t) {
            Some((n, a)) => Some(SourceItem::Trait(n, a)),
            None => Some(SourceItem::Other),
        },
        ItemKind::Macro => match macro_call(t) {
            Some((Some(n), toks)) => if n@ == "trait_for"@ {
                match trait_for_read(toks@) {
                    Some((a, b)) => Some(SourceItem::TraitFor(a, b)),
                    None => None,
                }
            } else {
                Some(SourceItem::Other)
            },
            _ => Some(SourceItem::Other),
        },
        _ => Some(SourceItem::Other),
    }
}

/// What the items are, in order; none where a `trait_for!` call does not
/// read.
pub open spec fn sources_of(items: Seq<(ItemKind, Seq<char>)>) -> Option<Seq<SourceItem>>
    decreases items.len(),
{
    if items.len() == 0 {
        Some(Seq::empty())
    } else {
        match (sources_of(items.drop_last()), item_source(items.last().0, items.last().1)) {
            (Some(s), Some(x)) => Some(s.push(x)),
            _ => None,
        }
    }
}

/// Splits the printed arguments of a `trait_for!` call.
fn split_trait_for(t: &str) -> (r: Option<(String, String)>)
    ensures
        match r {
            Some((a, b)) => trait_for_parts(t@) == Some((a@, b@)),
            None => trait_for_parts(t@) is None,
        },
{
    proof {
        reveal_strlit("trait ");
        reveal_strlit(" => ");
        reveal_strlit(" =>");
    }
    if !crate::build::package::starts_with_text(t, "trait ") {
        return None;
    }
    let n = t.unicode_len();
    let body = t.substring_char(6, n);
    let ghost bv = t@.skip(6);
    assert(body@ =~= bv);
    let m = body.unicode_len();
    let mut k: usize = 0;
    while k < m && body.get_char(k) != ' '
        invariant
            k <= m,
            m == bv.len(),
            body@ == bv,
            forall|j: int| 0 <= j < k ==> bv[j] != ' ',
        decreases m - k,
    {
        k = k + 1;
    }
    proof {
        if k < m {
            assert(bv[k as int] == ' ');
            let c = choose|i: int| 0 <= i < bv.len() && bv[i] == ' ' && forall|j: int| 0 <= j < i ==> bv[j] != ' ';
            if c < k {
                assert(bv[c] != ' ');
            }
            if k < c {
                assert(bv[k as int] != ' ');
            }
            assert(first_space(bv) == k);
        } else {
            assert(!(exists|i: int| 0 <= i < bv.len() && bv[i] == ' ')) by {
                if exists|i: int| 0 <= i < bv.len() && bv[i] == ' ' {
                    let i = choose|i: int| 0 <= i < bv.len() && bv[i] == ' ';
                    assert(bv[i] != ' ');
                }
            }
        }
    }
    let name = body.substring_char(0, k);
    let after = body.substring_char(k, m);
    assert(name@ =~= bv.take(k as int));
    assert(after@ =~= bv.skip(k as int));
    if crate::build::package::starts_with_text(after, " => ") {
        let l = after.unicode_len();
        let rest = after.substring_char(4, l);
        assert(rest@ =~= bv.skip(k as int).skip(4));
        Some((name.to_string(), rest.to_string()))
    } else {
        let a = after.to_string();
        if is_text(&a, " =>") {
            let e = String::new();
            assert(e@ =~= Seq::<char>::empty());
            Some((name.to_string(), e))
        } else {
            None
        }
    }
}

/// The trait and printed types of a `trait_for!` call.
fn read_trait_for(toks: &str) -> (r: Option<(String, Vec<String>)>)
    ensures
        r == trait_for_read(toks@),
{
    match split_trait_for(toks) {
        Some((n, rest)) => match (ident_of(n.as_str()), type_list_of(rest.as_str())) {
            (Some(a), Some(b)) => Some((a, b)),
            _ => None,
        },
        None => None,
    }
}

/// What an item is, as far as components are concerned.
fn source_item_of(kind: ItemKind, t: &String) -> (r: Option<SourceItem>)
    ensures
        r == item_source(kind, t@),
{
    match kind {
        ItemKind::Struct | ItemKind::Enum | ItemKind::Type => match header_of(t.as_str()) {
            Some((n, a)) => Some(SourceItem::Data(n, a)),
            None => Some(SourceItem::Other),
        },
        ItemKind::Trait => match header_of(t.as_str()) {
            Some((n, a)) => Some(SourceItem::Trait(n, a)),
            None => Some(SourceItem::Other),
        },
        ItemKind::Macro => match macro_call_of(t.as_str()) {
            Some((Some(n), toks)) => {
                if is_text(&n, "trait_for") {
                    match read_trait_for(toks.as_str()) {
                        Some((a, b)) => Some(SourceItem::TraitFor(a, b)),
                        None => None,
                    }
                } else {
                    Some(SourceItem::Other)
                }
            },
            _ => Some(SourceItem::Other),
        },
        _ => Some(SourceItem::Other),
    }
}

/// The components, traits and trait implementations that a source text
/// declares, in order, as `components_of` says of its items; none where a
/// `trait_for!` call's arguments do not read; none declared where the text
/// is not a Rust file.
pub fn find_structs_with_component(text: &str) -> (r: Option<Vec<ComponentType>>)
    ensures
        match source_items(text@) {
            None => r matches Some(v) && v@.len() == 0,
            Some(items) => match sources_of(items) {
                Some(s) => r matches Some(v) && components_view(v@) == components_of(s),
                None => r is None,
            },
        },
{
    let items = match parse_source_items(text) {
        Some(v) => v,
        None => return Some(Vec::new()),
    };
    let ghost iv = kinds_texts(items@);
    let mut list: Vec<SourceItem> = Vec::new();
    let mut i: usize = 0;
    assert(iv.take(0) =~= Seq::<(ItemKind, Seq<char>)>::empty());
    while i < items.len()
        invariant
            i <= items@.len(),
            iv == kinds_texts(items@),
            source_items(text@) == Some(iv),
            sources_of(iv.take(i as int)) == Some(list@),
        decreases items@.len() - i,
    {
        assert(iv.take(i + 1).drop_last() =~= iv.take(i as int));
        assert(iv.take(i + 1).last() == (items@[i as int].0, items@[i as int].1@));
        match source_item_of(items[i].0, &items[i].1) {
            Some(x) => {
                list.push(x);
            },
            None => {
                proof {
                    lemma_sources_stop(iv, i as int + 1);
                }
                return None;
            },
        }
        i = i + 1;
    }
    assert(iv.take(i as int) =~= iv);
    Some(components_of_items(&list))
}

/// Once an item does not read, the items do not.
proof fn lemma_sources_stop(items: Seq<(ItemKind, Seq<char>)>, n: int)
    requires
        0 <= n <= items.len(),
        sources_of(items.take(n)) is None,
    ensures
        sources_of(items) is None,
    decreases items.len() - n,
{
    if n < items.len() {
        assert(items.take(n + 1).drop_last() =~= items.take(n));
        lemma_sources_stop(items, n + 1);
    } else {
        assert(items.take(n) =~= items);
    }
}

/// The type a printed type is, where it is a path: its text, its last
/// segment's identifier, and that segment's first type argument with the
/// elements of that argument where it is a tuple.
pub open spec fn path_of_text(ty: Seq<char>) -> Option<PathType> {
    match path_type(ty) {
        Some((text, last, first)) => Some(PathType {
            text,
            last_ident: last,
            first_arg: match first {
                Some(a) => Some(TypeArg { text: a, elems: tuple_elems(a@) }),
                None => None,
            },
        }),
        None => None,
    }
}

/// The input a printed parameter stands for, if any; a parameter whose
/// pattern is not an identifier is named `_`.
pub open spec fn param_input(p: Seq<char>) -> Option<InputView> {
    match fn_param(p) {
        Some((n, ty)) => input_of_parts(
            match n {
                Some(x) => x@,
                None => "_"@,
            },
            path_of_text(ty@),
        ),
        None => None,
    }
}

/// The inputs the printed parameters stand for, in order.
pub open spec fn params_inputs(ps: Seq<String>) -> Seq<InputView>
    decreases ps.len(),
{
    if ps.len() == 0 {
        Seq::empty()
    } else {
        match param_input(ps.last()@) {
            Some(i) => params_inputs(ps.drop_last()).push(i),
            None => params_inputs(ps.drop_last()),
        }
    }
}

/// The elements of the arguments of a segment that are tuple types.
pub open spec fn tuple_args_of(args: Seq<Option<String>>) -> Seq<Vec<String>>
    decreases args.len(),
{
    if args.len() == 0 {
        Seq::empty()
    } else {
        let rest = tuple_args_of(args.drop_last());
        match args.last() {
            Some(a) => match tuple_elems(a@) {
                Some(v) => rest.push(v),
                None => rest,
            },
            None => rest,
        }
    }
}

/// The outputs the segments of a returned element's path stand for.
pub open spec fn segs_outputs(segs: Seq<(String, Vec<Option<String>>)>) -> Seq<OutputView>
    decreases segs.len(),
{
    if segs.len() == 0 {
        Seq::empty()
    } else {
        segs_outputs(segs.drop_last()) + segment_outputs_parts(segs.last().0@, tuple_args_of(segs.last().1@))
    }
}

/// The outputs the printed elements of a returned tuple stand for.
pub open spec fn elems_outputs(elems: Seq<String>) -> Seq<OutputView>
    decreases elems.len(),
{
    if elems.len() == 0 {
        Seq::empty()
    } else {
        elems_outputs(elems.drop_last()) + match path_segments(elems.last()@) {
            Some(segs) => segs_outputs(segs@),
            None => Seq::empty(),
        }
    }
}

/// The outputs a printed return type stands for: those of its elements
/// where it is a tuple.
pub open spec fn return_outputs(ret: Option<String>) -> Seq<OutputView> {
    match ret {
        Some(t) => match tuple_elems(t@) {
            Some(es) => elems_outputs(es@),
            None => Seq::empty(),
        },
        None => Seq::empty(),
    }
}

/// The task a printed function declares: one with an attribute that
/// mentions `task`.
pub open spec fn fn_task(item: Seq<char>) -> Option<TaskView> {
    match fn_header(item) {
        Some((name, attrs, params, ret)) => if mentions_task(attrs@) {
            Some(TaskView { name: name@, inputs: params_inputs(params@), outputs: return_outputs(ret) })
        } else {
            None
        },
        None => None,
    }
}

/// The tasks the functions among the items declare, in order.
pub open spec fn text_tasks(items: Seq<(ItemKind, Seq<char>)>) -> Seq<TaskView>
    decreases items.len(),
{
    if items.len() == 0 {
        Seq::empty()
    } else {
        let rest = text_tasks(items.drop_last());
        if items.last().0 is Fn {
            match fn_task(items.last().1) {
                Some(t) => rest.push(t),
                None => rest,
            }
        } else {
            rest
        }
    }
}

/// The type of a printed type, where it is a path.
fn path_of(ty: &str) -> (r: Option<PathType>)
    ensures
        r == path_of_text(ty@),
{
    match path_type_of(ty) {
        Some((text, last, first)) => {
            let first_arg = match first {
                Some(a) => {
                    let elems = tuple_elems_of(a.as_str());
                    Some(TypeArg { text: a, elems })
                },
                None => None,
            };
            Some(PathType { text, last_ident: last, first_arg })
        },
        None => None,
    }
}

/// The typed parameters of a function, from their printed text.
fn params_of(ps: &Vec<String>) -> (r: Vec<Param>)
    ensures
        crate::build::declarations::inputs_of(r@) == params_inputs(ps@),
{
    let mut r: Vec<Param> = Vec::new();
    let mut i: usize = 0;
    assert(ps@.take(0) =~= Seq::<String>::empty());
    while i < ps.len()
        invariant
            i <= ps@.len(),
            crate::build::declarations::inputs_of(r@) == params_inputs(ps@.take(i as int)),
        decreases ps@.len() - i,
    {
        assert(ps@.take(i + 1).drop_last() =~= ps@.take(i as int));
        assert(ps@.take(i + 1).last() == ps@[i as int]);
        match fn_param_of(ps[i].as_str()) {
            Some((n, ty)) => {
                let name = match n {
                    Some(x) => x,
                    None => {
                        proof {
                            reveal_strlit("_");
                        }
                        "_".to_string()
                    },
                };
                let path = path_of(ty.as_str());
                let ghost r0 = r@;
                r.push(Param { name, path });
                assert(r@.drop_last() =~= r0);
            },
            None => {},
        }
        i = i + 1;
    }
    assert(ps@.take(i as int) =~= ps@);
    r
}

/// The tuple arguments of a segment.
fn tuple_args(args: &Vec<Option<String>>) -> (r: Vec<Vec<String>>)
    ensures
        r@ == tuple_args_of(args@),
{
    let mut r: Vec<Vec<String>> = Vec::new();
    let mut i: usize = 0;
    assert(args@.take(0) =~= Seq::<Option<String>>::empty());
    while i < args.len()
        invariant
            i <= args@.len(),
            r@ == tuple_args_of(args@.take(i as int)),
        decreases args@.len() - i,
    {
        assert(args@.take(i + 1).drop_last() =~= args@.take(i as int));
        assert(args@.take(i + 1).last() == args@[i as int]);
        match &args[i] {
            Some(a) => match tuple_elems_of(a.as_str()) {
                Some(v) => {
                    r.push(v);
                },
                None => {},
            },
            None => {},
        }
        i = i + 1;
    }
    assert(args@.take(i as int) =~= args@);
    r
}

/// The segments of a returned element's path.
fn segments_of(segs: &Vec<(String, Vec<Option<String>>)>) -> (r: Vec<Segment>)
    ensures
        crate::build::declarations::segments_outputs(r@) == segs_outputs(segs@),
{
    let mut r: Vec<Segment> = Vec::new();
    let mut i: usize = 0;
    assert(segs@.take(0) =~= Seq::<(String, Vec<Option<String>>)>::empty());
    while i < segs.len()
        invariant
            i <= segs@.len(),
            crate::build::declarations::segments_outputs(r@) == segs_outputs(segs@.take(i as int)),
        decreases segs@.len() - i,
    {
        assert(segs@.take(i + 1).drop_last() =~= segs@.take(i as int));
        assert(segs@.take(i + 1).last() == segs@[i as int]);
        let ta = tuple_args(&segs[i].1);
        let ghost r0 = r@;
        r.push(Segment { ident: segs[i].0.clone(), tuple_args: ta });
        assert(r@.drop_last() =~= r0);
        i = i + 1;
    }
    assert(segs@.take(i as int) =~= segs@);
    r
}

/// The segments of each element of a returned tuple.
fn returned_of(ret: &Option<String>) -> (r: Vec<Vec<Segment>>)
    ensures
        crate::build::declarations::returned_outputs(r@) == return_outputs(*ret),
{
    let mut r: Vec<Vec<Segment>> = Vec::new();
    let elems = match ret {
        Some(t) => match tuple_elems_of(t.as_str()) {
            Some(es) => es,
            None => return r,
        },
        None => return r,
    };
    let mut i: usize = 0;
    assert(elems@.take(0) =~= Seq::<String>::empty());
    while i < elems.len()
        invariant
            i <= elems@.len(),
            crate::build::declarations::returned_outputs(r@) == elems_outputs(elems@.take(i as int)),
        decreases elems@.len() - i,
    {
        assert(elems@.take(i + 1).drop_last() =~= elems@.take(i as int));
        assert(elems@.take(i + 1).last() == elems@[i as int]);
        let segs = match path_segments_of(elems[i].as_str()) {
            Some(ss) => segments_of(&ss),
            None => Vec::new(),
        };
        let ghost r0 = r@;
        r.push(segs);
        assert(r@.drop_last() =~= r0);
        i = i + 1;
    }
    assert(elems@.take(i as int) =~= elems@);
    r
}

/// The tasks that a source text declares, in order: each function with an
/// attribute that mentions `task`, with the inputs its parameters and the
/// outputs its returned tuple stand for; none where the text is not a Rust
/// file.
pub fn find_structs_with_task(text: &str) -> (r: Vec<Task>)
    ensures
        match source_items(text@) {
            None => r@.len() == 0,
            Some(items) => tasks_view(r@) == text_tasks(items),
        },
{
    let items = match parse_source_items(text) {
        Some(v) => v,
        None => return Vec::new(),
    };
    let ghost iv = kinds_texts(items@);
    let mut fns: Vec<FnItem> = Vec::new();
    let mut i: usize = 0;
    assert(iv.take(0) =~= Seq::<(ItemKind, Seq<char>)>::empty());
    while i < items.len()
        invariant
            i <= items@.len(),
            iv == kinds_texts(items@),
            source_items(text@) == Some(iv),
            crate::build::declarations::tasks_of(fns@) == text_tasks(iv.take(i as int)),
        decreases items@.len() - i,
    {
        assert(iv.take(i + 1).drop_last() =~= iv.take(i as int));
        assert(iv.take(i + 1).last() == (items@[i as int].0, items@[i as int].1@));
        match items[i].0 {
            ItemKind::Fn => {
                match fn_header_of(items[i].1.as_str()) {
                    Some((name, attrs, params, ret)) => {
                        let ps = params_of(&params);
                        let returned = returned_of(&ret);
                        let ghost r0 = fns@;
                        fns.push(FnItem { name, attrs, params: ps, returned });
                        assert(fns@.drop_last() =~= r0);
                    },
                    None => {},
                }
            },
            _ => {},
        }
        i = i + 1;
    }
    assert(iv.take(i as int) =~= iv);
    tasks_of_fns(&fns)
}

/// The macro calls among the items, in order: the last segment of each
/// call's path and the printed tokens of its arguments.
pub open spec fn text_macro_calls(items: Seq<(ItemKind, Seq<char>)>) -> Seq<(Option<String>, String)>
    decreases items.len(),
{
    if items.len() == 0 {
        Seq::empty()
    } else {
        let rest = text_macro_calls(items.drop_last());
        if items.last().0 is Macro {
            match macro_call(items.last().1) {
                Some(c) => rest.push(c),
                None => rest,
            }
        } else {
            rest
        }
    }
}

/// The top-level macro calls of a source text, in order, each with the
/// last segment of its path and the printed tokens of its arguments; none
/// where the text is not a Rust file.
pub fn macro_calls(text: &str) -> (r: Option<Vec<(Option<String>, String)>>)
    ensures
        match source_items(text@) {
            None => r is None,
            Some(items) => r matches Some(v) && v@ == text_macro_calls(items),
        },
{
    let items = match parse_source_items(text) {
        Some(v) => v,
        None => return None,
    };
    let ghost iv = kinds_texts(items@);
    let mut calls: Vec<(Option<String>, String)> = Vec::new();
    let mut i: usize = 0;
    assert(iv.take(0) =~= Seq::<(ItemKind, Seq<char>)>::empty());
    while i < items.len()
        invariant
            i <= items@.len(),
            iv == kinds_texts(items@),
            source_items(text@) == Some(iv),
            calls@ == text_macro_calls(iv.take(i as int)),
        decreases items@.len() - i,
    {
        assert(iv.take(i + 1).drop_last() =~= iv.take(i as int));
        assert(iv.take(i + 1).last() == (items@[i as int].0, items@[i as int].1@));
        match items[i].0 {
            ItemKind::Macro => match macro_call_of(items[i].1.as_str()) {
                Some(c) => {
                    calls.push(c);
                },
                None => {},
            },
            _ => {},
        }
        i = i + 1;
    }
    assert(iv.take(i as int) =~= iv);
    Some(calls)
}

} // verus!
