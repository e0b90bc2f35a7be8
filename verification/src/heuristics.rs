//! Structural heuristics for design-pattern detection.
//!
//! Each heuristic reports **structural evidence** of a pattern, not proof.
//! The text-level part of every check is plain character scanning over the
//! source; the syntax-level part goes through a Rust parsing collaborator
//! (`syn`), behind trusted extraction wrappers whose results are named,
//! uninterpreted functions of the source text. A file that cannot be parsed
//! yields empty extractions and therefore no syntax-level evidence.

use vstd::prelude::*;

use crate::check::tree_view;
use crate::text::{chars_eq_str, contains_lit, contains_seq, str_to_chars};
use crate::validate::listings_view;

verus! {

// ---------------------------------------------------------------------------
// Trusted extraction: names for what the parsing collaborator returns
// ---------------------------------------------------------------------------

/// The names of the traits a source text declares (empty when unparsable).
pub uninterp spec fn trait_names_of(s: Seq<char>) -> Seq<Seq<char>>;

/// The names of all methods declared inside traits (empty when unparsable).
pub uninterp spec fn trait_method_names_of(s: Seq<char>) -> Seq<Seq<char>>;

/// One `(is_use, is_public)` pair per top-level `use` or `mod` item.
pub uninterp spec fn use_mod_flags_of(s: Seq<char>) -> Seq<(bool, bool)>;

/// Whether each `impl` block implements a trait.
pub uninterp spec fn impl_trait_flags_of(s: Seq<char>) -> Seq<bool>;

/// Per `impl` block, the `(name, return type text)` of each method.
pub uninterp spec fn impl_methods_of(s: Seq<char>) -> Seq<Seq<(Seq<char>, Seq<char>)>>;

/// The return-type text of each top-level function.
pub uninterp spec fn fn_returns_of(s: Seq<char>) -> Seq<Seq<char>>;

/// Per struct with named fields, the token text of each field.
pub uninterp spec fn struct_fields_of(s: Seq<char>) -> Seq<Seq<Seq<char>>>;

/// The view of a list of names.
pub open spec fn names_view(v: Seq<String>) -> Seq<Seq<char>> {
    v.map_values(|x: String| x@)
}

/// The view of per-impl method signatures.
pub open spec fn methods_view(v: Seq<Vec<(String, String)>>) -> Seq<Seq<(Seq<char>, Seq<char>)>> {
    v.map_values(|m: Vec<(String, String)>| m@.map_values(|p: (String, String)| (p.0@, p.1@)))
}

/// Relies on `syn::parse_file` and `syn::Item::Trait`: collects the names of
/// the trait declarations, a function of the source text alone.
#[verifier::external_body]
fn syn_trait_names(src: &str) -> (r: Vec<String>)
    ensures
        names_view(r@) == trait_names_of(src@),
{
    let mut v: Vec<String> = Vec::new();
    if let Ok(f) = syn::parse_file(src) {
        for item in f.items {
            if let syn::Item::Trait(t) = item {
                v.push(t.ident.to_string());
            }
        }
    }
    v
}

/// Relies on `syn::parse_file` and `syn::TraitItem::Fn`: collects the names
/// of all methods declared inside traits, a function of the source alone.
#[verifier::external_body]
fn syn_trait_method_names(src: &str) -> (r: Vec<String>)
    ensures
        names_view(r@) == trait_method_names_of(src@),
{
    let mut v: Vec<String> = Vec::new();
    if let Ok(f) = syn::parse_file(src) {
        for item in f.items {
            if let syn::Item::Trait(t) = item {
                for ti in t.items {
                    if let syn::TraitItem::Fn(m) = ti {
                        v.push(m.sig.ident.to_string());
                    }
                }
            }
        }
    }
    v
}

/// Relies on `syn::parse_file`, `syn::Item::Use`, `syn::Item::Mod` and
/// `syn::Visibility`: one `(is_use, is_public)` pair per item.
#[verifier::external_body]
fn syn_use_mod_flags(src: &str) -> (r: Vec<(bool, bool)>)
    ensures
        r@ == use_mod_flags_of(src@),
{
    let mut v: Vec<(bool, bool)> = Vec::new();
    if let Ok(f) = syn::parse_file(src) {
        for item in f.items {
            match item {
                syn::Item::Use(u) => v.push((true, matches!(u.vis, syn::Visibility::Public(_)))),
                syn::Item::Mod(m) => v.push((false, matches!(m.vis, syn::Visibility::Public(_)))),
                _ => {},
            }
        }
    }
    v
}

/// Relies on `syn::parse_file` and `syn::ItemImpl::trait_`: whether each
/// `impl` block implements a trait.
#[verifier::external_body]
fn syn_impl_trait_flags(src: &str) -> (r: Vec<bool>)
    ensures
        r@ == impl_trait_flags_of(src@),
{
    let mut v: Vec<bool> = Vec::new();
    if let Ok(f) = syn::parse_file(src) {
        for item in f.items {
            if let syn::Item::Impl(ib) = item {
                v.push(ib.trait_.is_some());
            }
        }
    }
    v
}

/// Relies on `syn::parse_file`, `syn::ImplItem::Fn` and
/// `quote::ToTokens::to_token_stream`: per `impl` block, each method's name
/// and printed return type.
#[verifier::external_body]
fn syn_impl_methods(src: &str) -> (r: Vec<Vec<(String, String)>>)
    ensures
        methods_view(r@) == impl_methods_of(src@),
{
    let mut v: Vec<Vec<(String, String)>> = Vec::new();
    if let Ok(f) = syn::parse_file(src) {
        for item in f.items {
            if let syn::Item::Impl(ib) = item {
                let mut ms: Vec<(String, String)> = Vec::new();
                for ii in ib.items {
                    if let syn::ImplItem::Fn(m) = ii {
                        let ret = match &m.sig.output { syn::ReturnType::Default => String::new(), syn::ReturnType::Type(_, t) => quote::ToTokens::to_token_stream(t).to_string() };
                        ms.push((m.sig.ident.to_string(), ret));
                    }
                }
                v.push(ms);
            }}}
    v
}

/// Relies on `syn::parse_file`, `syn::Item::Fn` and
/// `quote::ToTokens::to_token_stream`: the printed return type of each
/// top-level function.
#[verifier::external_body]
fn syn_fn_returns(src: &str) -> (r: Vec<String>)
    ensures
        names_view(r@) == fn_returns_of(src@),
{
    let mut v: Vec<String> = Vec::new();
    if let Ok(f) = syn::parse_file(src) {
        for item in f.items {
            if let syn::Item::Fn(func) = item {
                let ret = match &func.sig.output { syn::ReturnType::Default => String::new(), syn::ReturnType::Type(_, t) => quote::ToTokens::to_token_stream(t).to_string() };
                v.push(ret);
            }
        }
    }
    v
}

/// Relies on `syn::parse_file`, `syn::Fields::Named` and
/// `quote::ToTokens::to_token_stream`: per struct with named fields, the
/// printed token text of each field.
#[verifier::external_body]
fn syn_struct_fields(src: &str) -> (r: Vec<Vec<String>>)
    ensures
        listings_view(r@) == struct_fields_of(src@),
{
    let mut v: Vec<Vec<String>> = Vec::new();
    if let Ok(f) = syn::parse_file(src) {
        for item in f.items {
            if let syn::Item::Struct(st) = item {
                if let syn::Fields::Named(fs) = st.fields {
                    let mut names: Vec<String> = Vec::new();
                    for fld in fs.named {
                        names.push(quote::ToTokens::to_token_stream(&fld).to_string());
                    }
                    v.push(names);
                }
            }
        }
    }
    v
}

// ---------------------------------------------------------------------------
// Evidence, in the model
// ---------------------------------------------------------------------------

/// A method name from the observer vocabulary.
pub open spec fn is_observer_name(n: Seq<char>) -> bool {
    n == "subscribe"@ || n == "unsubscribe"@ || n == "notify"@ || n == "on_event"@ || n
        == "on_update"@ || n == "on_change"@ || n == "emit"@ || n == "publish"@ || n
        == "add_listener"@ || n == "remove_listener"@
}

/// A method name from the command vocabulary.
pub open spec fn is_command_name(n: Seq<char>) -> bool {
    n == "execute"@ || n == "exec"@ || n == "run"@ || n == "invoke"@ || n == "perform"@ || n
        == "undo"@ || n == "redo"@
}

/// A channel or callback indicator occurs in the raw text.
pub open spec fn observer_text_evidence(s: Seq<char>) -> bool {
    contains_seq(s, "mpsc::Sender"@) || contains_seq(s, "mpsc::Receiver"@) || contains_seq(
        s,
        "mpsc::channel"@,
    ) || contains_seq(s, "crossbeam_channel"@) || contains_seq(s, "broadcast::Sender"@)
        || contains_seq(s, "watch::Sender"@) || contains_seq(s, "watch::Receiver"@) || contains_seq(
        s,
        "Box<dyn Fn"@,
    ) || contains_seq(s, "Box<dyn FnMut"@) || contains_seq(s, "Box<dyn FnOnce"@) || contains_seq(
        s,
        "Arc<dyn Fn"@,
    ) || contains_seq(s, "impl Fn("@) || contains_seq(s, "impl FnMut("@) || contains_seq(
        s,
        "impl FnOnce("@,
    ) || contains_seq(s, "-> Receiver"@) || contains_seq(s, "-> Sender"@)
}

/// Some declared trait method comes from the observer vocabulary.
pub open spec fn has_observer_method(names: Seq<Seq<char>>) -> bool {
    exists|i: int| 0 <= i < names.len() && is_observer_name(names[i])
}

/// Observer evidence: a channel or callback indicator in the text, or an
/// observer-named trait method.
pub open spec fn observer_evidence(s: Seq<char>) -> bool {
    observer_text_evidence(s) || has_observer_method(trait_method_names_of(s))
}

/// Strategy evidence: the file declares at least one trait.
pub open spec fn strategy_evidence(s: Seq<char>) -> bool {
    trait_names_of(s).len() > 0
}

/// How many pairs are public `use` items.
pub open spec fn pub_use_count(flags: Seq<(bool, bool)>) -> nat
    decreases flags.len(),
{
    if flags.len() == 0 {
        0
    } else {
        pub_use_count(flags.drop_last()) + if flags.last().0 && flags.last().1 {
            1nat
        } else {
            0nat
        }
    }
}

/// How many pairs are public `mod` items.
pub open spec fn pub_mod_count(flags: Seq<(bool, bool)>) -> nat
    decreases flags.len(),
{
    if flags.len() == 0 {
        0
    } else {
        pub_mod_count(flags.drop_last()) + if !flags.last().0 && flags.last().1 {
            1nat
        } else {
            0nat
        }
    }
}

/// Facade evidence: at least one public re-export, or at least two public
/// sub-module declarations.
pub open spec fn facade_evidence(s: Seq<char>) -> bool {
    pub_use_count(use_mod_flags_of(s)) >= 1 || pub_mod_count(use_mod_flags_of(s)) >= 2
}

/// A method of an `impl` block is literally named `build`.
pub open spec fn has_build_method(ms: Seq<(Seq<char>, Seq<char>)>) -> bool {
    exists|j: int| 0 <= j < ms.len() && ms[j].0 == "build"@
}

/// How many methods of an `impl` block return the enclosing type.
pub open spec fn self_return_count(ms: Seq<(Seq<char>, Seq<char>)>) -> nat
    decreases ms.len(),
{
    if ms.len() == 0 {
        0
    } else {
        self_return_count(ms.drop_last()) + if contains_seq(ms.last().1, "Self"@) {
            1nat
        } else {
            0nat
        }
    }
}

/// Builder evidence: an `impl` block with a `build` method or two fluent
/// setters, or a `build` signature in the raw text.
pub open spec fn builder_evidence(s: Seq<char>) -> bool {
    (exists|i: int|
        0 <= i < impl_methods_of(s).len() && (has_build_method(#[trigger] impl_methods_of(s)[i])
            || self_return_count(impl_methods_of(s)[i]) >= 2)) || contains_seq(
        s,
        "fn build(self)"@,
    ) || contains_seq(s, "fn build(&self)"@) || contains_seq(s, "fn build(&mut self)"@)
}

/// Factory evidence: a boxed or named constructor indicator in the text, or
/// a function returning a boxed or `impl` type.
pub open spec fn factory_evidence(s: Seq<char>) -> bool {
    contains_seq(s, "-> Box<dyn"@) || contains_seq(s, "-> Arc<dyn"@) || contains_seq(
        s,
        "-> Rc<dyn"@,
    ) || contains_seq(s, "fn create("@) || contains_seq(s, "fn create_"@) || contains_seq(
        s,
        "fn make("@,
    ) || contains_seq(s, "fn make_"@) || (exists|i: int|
        0 <= i < fn_returns_of(s).len() && (contains_seq(
            #[trigger] fn_returns_of(s)[i],
            "Box < dyn"@,
        ) || contains_seq(fn_returns_of(s)[i], "impl "@)))
}

/// Some `impl` block implements a trait.
pub open spec fn has_trait_impl(flags: Seq<bool>) -> bool {
    exists|i: int| 0 <= i < flags.len() && flags[i]
}

/// Adapter evidence: a thin wrapper struct of one or two named fields,
/// together with some trait implementation.
pub open spec fn adapter_evidence(s: Seq<char>) -> bool {
    (exists|i: int|
        0 <= i < struct_fields_of(s).len() && 1 <= (#[trigger] struct_fields_of(s)[i]).len() <= 2)
        && has_trait_impl(impl_trait_flags_of(s))
}

/// Decorator evidence: a trait-object indicator in the text, a struct whose
/// named field holds a boxed trait object, and some trait implementation.
pub open spec fn decorator_evidence(s: Seq<char>) -> bool {
    (contains_seq(s, "Box<dyn"@) || contains_seq(s, "Arc<dyn"@)) && (exists|i: int, j: int|
        0 <= i < struct_fields_of(s).len() && 0 <= j < (#[trigger] struct_fields_of(s)[i]).len()
            && (contains_seq(#[trigger] struct_fields_of(s)[i][j], "Box < dyn"@) || contains_seq(
            struct_fields_of(s)[i][j],
            "Arc < dyn"@,
        ))) && has_trait_impl(impl_trait_flags_of(s))
}

/// Singleton evidence: a lazy-static or once-initialization indicator, or an
/// instance accessor, in the raw text.
pub open spec fn singleton_evidence(s: Seq<char>) -> bool {
    contains_seq(s, "lazy_static!"@) || contains_seq(s, "once_cell::sync::Lazy"@) || contains_seq(
        s,
        "OnceLock"@,
    ) || contains_seq(s, "OnceCell"@) || contains_seq(s, "static ref "@) || contains_seq(
        s,
        "fn instance()"@,
    ) || contains_seq(s, "fn get_instance()"@)
}

/// Command evidence: a trait method from the command vocabulary.
pub open spec fn command_evidence(s: Seq<char>) -> bool {
    exists|i: int|
        0 <= i < trait_method_names_of(s).len() && is_command_name(
            #[trigger] trait_method_names_of(s)[i],
        )
}

/// The evidence for a named pattern; unknown names have none.
pub open spec fn pattern_evidence(pattern: Seq<char>, s: Seq<char>) -> bool {
    if pattern == "Observer"@ {
        observer_evidence(s)
    } else if pattern == "Strategy"@ {
        strategy_evidence(s)
    } else if pattern == "Facade"@ {
        facade_evidence(s)
    } else if pattern == "Builder"@ {
        builder_evidence(s)
    } else if pattern == "Factory"@ {
        factory_evidence(s)
    } else if pattern == "Adapter"@ {
        adapter_evidence(s)
    } else if pattern == "Decorator"@ {
        decorator_evidence(s)
    } else if pattern == "Singleton"@ {
        singleton_evidence(s)
    } else if pattern == "Command"@ {
        command_evidence(s)
    } else {
        false
    }
}

/// Module-level evidence is existential: one matching file is enough.
pub open spec fn module_evidence(
    pattern: Seq<char>,
    sources: Seq<(Seq<char>, Seq<char>)>,
) -> bool {
    exists|i: int| 0 <= i < sources.len() && pattern_evidence(pattern, (#[trigger] sources[i]).1)
}

// ---------------------------------------------------------------------------
// Executable checks
// ---------------------------------------------------------------------------

/// Whether any of a list of names satisfies the observer vocabulary.
#[verifier::loop_isolation(false)]
fn any_observer_name(names: &Vec<String>) -> (r: bool)
    ensures
        r == has_observer_method(names_view(names@)),
{
    let ghost nv = names_view(names@);
    let mut i: usize = 0;
    while i < names.len()
        invariant
            nv == names_view(names@),
            nv.len() == names@.len(),
            i <= names@.len(),
            forall|j: int| 0 <= j < i ==> !is_observer_name(nv[j]),
        decreases names@.len() - i,
    {
        assert(nv[i as int] == names@[i as int]@);
        let nc = str_to_chars(names[i].as_str());
        if chars_eq_str(nc.as_slice(), "subscribe") || chars_eq_str(nc.as_slice(), "unsubscribe")
            || chars_eq_str(nc.as_slice(), "notify") || chars_eq_str(nc.as_slice(), "on_event")
            || chars_eq_str(nc.as_slice(), "on_update") || chars_eq_str(nc.as_slice(), "on_change")
            || chars_eq_str(nc.as_slice(), "emit") || chars_eq_str(nc.as_slice(), "publish")
            || chars_eq_str(nc.as_slice(), "add_listener") || chars_eq_str(
            nc.as_slice(),
            "remove_listener",
        ) {
            return true;
        }
        i = i + 1;
    }
    false
}

/// Whether any of a list of names satisfies the command vocabulary.
#[verifier::loop_isolation(false)]
fn any_command_name(names: &Vec<String>) -> (r: bool)
    ensures
        r == (exists|i: int|
            0 <= i < names_view(names@).len() && is_command_name(names_view(names@)[i])),
{
    let ghost nv = names_view(names@);
    let mut i: usize = 0;
    while i < names.len()
        invariant
            nv == names_view(names@),
            nv.len() == names@.len(),
            i <= names@.len(),
            forall|j: int| 0 <= j < i ==> !is_command_name(nv[j]),
        decreases names@.len() - i,
    {
        assert(nv[i as int] == names@[i as int]@);
        let nc = str_to_chars(names[i].as_str());
        if chars_eq_str(nc.as_slice(), "execute") || chars_eq_str(nc.as_slice(), "exec")
            || chars_eq_str(nc.as_slice(), "run") || chars_eq_str(nc.as_slice(), "invoke")
            || chars_eq_str(nc.as_slice(), "perform") || chars_eq_str(nc.as_slice(), "undo")
            || chars_eq_str(nc.as_slice(), "redo") {
            return true;
        }
        i = i + 1;
    }
    false
}

/// Check Rust source for Observer structure: channel types, callback
/// parameters, or observer-named trait methods.
#[verifier::loop_isolation(false)]
pub fn check_observer(source: &str) -> (r: bool)
    ensures
        r == observer_evidence(source@),
{
    let sc = str_to_chars(source);
    if contains_lit(sc.as_slice(), "mpsc::Sender") || contains_lit(sc.as_slice(), "mpsc::Receiver")
        || contains_lit(sc.as_slice(), "mpsc::channel") || contains_lit(
        sc.as_slice(),
        "crossbeam_channel",
    ) || contains_lit(sc.as_slice(), "broadcast::Sender") || contains_lit(
        sc.as_slice(),
        "watch::Sender",
    ) || contains_lit(sc.as_slice(), "watch::Receiver") || contains_lit(
        sc.as_slice(),
        "Box<dyn Fn",
    ) || contains_lit(sc.as_slice(), "Box<dyn FnMut") || contains_lit(
        sc.as_slice(),
        "Box<dyn FnOnce",
    ) || contains_lit(sc.as_slice(), "Arc<dyn Fn") || contains_lit(sc.as_slice(), "impl Fn(")
        || contains_lit(sc.as_slice(), "impl FnMut(") || contains_lit(
        sc.as_slice(),
        "impl FnOnce(",
    ) || contains_lit(sc.as_slice(), "-> Receiver") || contains_lit(sc.as_slice(), "-> Sender") {
        return true;
    }
    let names = syn_trait_method_names(source);
    any_observer_name(&names)
}

/// Check Rust source for Strategy structure: a trait declaration.
pub fn check_strategy(source: &str) -> (r: bool)
    ensures
        r == strategy_evidence(source@),
{
    let names = syn_trait_names(source);
    names.len() > 0
}

/// Check Rust source for Facade structure: public re-exports or at least two
/// public sub-module declarations.
pub fn check_facade(source: &str) -> (r: bool)
    ensures
        r == facade_evidence(source@),
{
    let flags = syn_use_mod_flags(source);
    let ghost fv = use_mod_flags_of(source@);
    let mut uses: usize = 0;
    let mut mods: usize = 0;
    let mut i: usize = 0;
    proof {
        assert(fv.subrange(0, 0) =~= Seq::<(bool, bool)>::empty());
    }
    while i < flags.len()
        invariant
            flags@ == fv,
            i <= fv.len(),
            uses == pub_use_count(fv.subrange(0, i as int)),
            mods == pub_mod_count(fv.subrange(0, i as int)),
            uses <= i,
            mods <= i,
        decreases fv.len() - i,
    {
        proof {
            assert(fv.subrange(0, i + 1).drop_last() =~= fv.subrange(0, i as int));
            assert(fv.subrange(0, i + 1).last() == fv[i as int]);
        }
        if flags[i].0 && flags[i].1 {
            uses = uses + 1;
        }
        if !flags[i].0 && flags[i].1 {
            mods = mods + 1;
        }
        i = i + 1;
    }
    proof {
        assert(fv.subrange(0, fv.len() as int) =~= fv);
    }
    uses >= 1 || mods >= 2
}

/// Check Rust source for Builder structure: a `build` method or fluent
/// chaining, in syntax or raw text.
#[verifier::loop_isolation(false)]
pub fn check_builder(source: &str) -> (r: bool)
    ensures
        r == builder_evidence(source@),
{
    let blocks = syn_impl_methods(source);
    let ghost bv = impl_methods_of(source@);
    let mut i: usize = 0;
    while i < blocks.len()
        invariant
            methods_view(blocks@) == bv,
            blocks@.len() == bv.len(),
            i <= bv.len(),
            forall|j: int|
                0 <= j < i ==> !(has_build_method(#[trigger] bv[j]) || self_return_count(bv[j])
                    >= 2),
        decreases bv.len() - i,
    {
        let ghost ms = bv[i as int];
        proof {
            assert(bv[i as int] == blocks@[i as int]@.map_values(
                |p: (String, String)| (p.0@, p.1@),
            ));
        }
        let block = &blocks[i];
        let mut selfs: usize = 0;
        let mut has_build: bool = false;
        let mut j: usize = 0;
        proof {
            assert(ms.subrange(0, 0) =~= Seq::<(Seq<char>, Seq<char>)>::empty());
        }
        while j < block.len()
            invariant
                ms == block@.map_values(|p: (String, String)| (p.0@, p.1@)),
                ms.len() == block@.len(),
                j <= ms.len(),
                selfs == self_return_count(ms.subrange(0, j as int)),
                selfs <= j,
                has_build == (exists|k: int| 0 <= k < j && ms[k].0 == "build"@),
            decreases ms.len() - j,
        {
            proof {
                assert(ms[j as int] == (block@[j as int].0@, block@[j as int].1@));
                assert(ms.subrange(0, j + 1).drop_last() =~= ms.subrange(0, j as int));
                assert(ms.subrange(0, j + 1).last() == ms[j as int]);
            }
            let nc = str_to_chars(block[j].0.as_str());
            if chars_eq_str(nc.as_slice(), "build") {
                has_build = true;
            }
            let rc = str_to_chars(block[j].1.as_str());
            if contains_lit(rc.as_slice(), "Self") {
                selfs = selfs + 1;
            }
            j = j + 1;
        }
        proof {
            assert(ms.subrange(0, ms.len() as int) =~= ms);
        }
        if has_build || selfs >= 2 {
            proof {
                assert(has_build_method(#[trigger] bv[i as int]) || self_return_count(bv[i as int])
                    >= 2);
            }
            return true;
        }
        i = i + 1;
    }
    let sc = str_to_chars(source);
    contains_lit(sc.as_slice(), "fn build(self)") || contains_lit(
        sc.as_slice(),
        "fn build(&self)",
    ) || contains_lit(sc.as_slice(), "fn build(&mut self)")
}

/// Check Rust source for Factory structure: functions returning boxed or
/// abstract types, or constructor-named functions.
#[verifier::loop_isolation(false)]
pub fn check_factory(source: &str) -> (r: bool)
    ensures
        r == factory_evidence(source@),
{
    let sc = str_to_chars(source);
    if contains_lit(sc.as_slice(), "-> Box<dyn") || contains_lit(sc.as_slice(), "-> Arc<dyn")
        || contains_lit(sc.as_slice(), "-> Rc<dyn") || contains_lit(sc.as_slice(), "fn create(")
        || contains_lit(sc.as_slice(), "fn create_") || contains_lit(sc.as_slice(), "fn make(")
        || contains_lit(sc.as_slice(), "fn make_") {
        return true;
    }
    let rets = syn_fn_returns(source);
    let ghost rv = fn_returns_of(source@);
    let mut i: usize = 0;
    while i < rets.len()
        invariant
            names_view(rets@) == rv,
            rets@.len() == rv.len(),
            i <= rv.len(),
            forall|j: int|
                0 <= j < i ==> !(contains_seq(#[trigger] rv[j], "Box < dyn"@) || contains_seq(
                    rv[j],
                    "impl "@,
                )),
        decreases rv.len() - i,
    {
        assert(rv[i as int] == rets@[i as int]@);
        let rc = str_to_chars(rets[i].as_str());
        if contains_lit(rc.as_slice(), "Box < dyn") || contains_lit(rc.as_slice(), "impl ") {
            proof {
                assert(contains_seq(#[trigger] rv[i as int], "Box < dyn"@) || contains_seq(
                    rv[i as int],
                    "impl "@,
                ));
            }
            return true;
        }
        i = i + 1;
    }
    false
}

/// Whether any `impl` block implements a trait.
#[verifier::loop_isolation(false)]
fn any_trait_impl(source: &str) -> (r: bool)
    ensures
        r == has_trait_impl(impl_trait_flags_of(source@)),
{
    let flags = syn_impl_trait_flags(source);
    let ghost fv = impl_trait_flags_of(source@);
    let mut i: usize = 0;
    while i < flags.len()
        invariant
            flags@ == fv,
            i <= fv.len(),
            forall|j: int| 0 <= j < i ==> !fv[j],
        decreases fv.len() - i,
    {
        if flags[i] {
            assert(fv[i as int]);
            return true;
        }
        i = i + 1;
    }
    false
}

/// Check Rust source for Adapter structure: a thin wrapper struct together
/// with a trait implementation.
#[verifier::loop_isolation(false)]
pub fn check_adapter(source: &str) -> (r: bool)
    ensures
        r == adapter_evidence(source@),
{
    let structs = syn_struct_fields(source);
    let ghost sv = struct_fields_of(source@);
    let mut wrapper: bool = false;
    let mut i: usize = 0;
    while i < structs.len()
        invariant
            listings_view(structs@) == sv,
            structs@.len() == sv.len(),
            i <= sv.len(),
            wrapper == (exists|j: int| 0 <= j < i && 1 <= (#[trigger] sv[j]).len() <= 2),
        decreases sv.len() - i,
    {
        proof {
            assert(sv[i as int] == crate::validate::listing_view(structs@[i as int]@));
            assert(sv[i as int].len() == structs@[i as int]@.len());
        }
        if structs[i].len() >= 1 && structs[i].len() <= 2 {
            wrapper = true;
        }
        i = i + 1;
    }
    wrapper && any_trait_impl(source)
}

/// Check Rust source for Decorator structure: a struct wrapping a boxed
/// trait object while some trait is implemented.
#[verifier::loop_isolation(false)]
pub fn check_decorator(source: &str) -> (r: bool)
    ensures
        r == decorator_evidence(source@),
{
    let sc = str_to_chars(source);
    if !(contains_lit(sc.as_slice(), "Box<dyn") || contains_lit(sc.as_slice(), "Arc<dyn")) {
        return false;
    }
    let structs = syn_struct_fields(source);
    let ghost sv = struct_fields_of(source@);
    let mut wrapped: bool = false;
    let mut i: usize = 0;
    while i < structs.len()
        invariant
            listings_view(structs@) == sv,
            structs@.len() == sv.len(),
            i <= sv.len(),
            wrapped == (exists|j: int, k: int|
                0 <= j < i && 0 <= k < (#[trigger] sv[j]).len() && (contains_seq(
                    #[trigger] sv[j][k],
                    "Box < dyn"@,
                ) || contains_seq(sv[j][k], "Arc < dyn"@))),
        decreases sv.len() - i,
    {
        let ghost fsv = sv[i as int];
        proof {
            assert(sv[i as int] == crate::validate::listing_view(structs@[i as int]@));
        }
        let fields = &structs[i];
        let mut k: usize = 0;
        while k < fields.len()
            invariant
                fsv == fields@.map_values(|x: String| x@),
                fsv.len() == fields@.len(),
                k <= fsv.len(),
                wrapped == ((exists|j: int, k2: int|
                    0 <= j < i && 0 <= k2 < (#[trigger] sv[j]).len() && (contains_seq(
                        #[trigger] sv[j][k2],
                        "Box < dyn"@,
                    ) || contains_seq(sv[j][k2], "Arc < dyn"@))) || (exists|k2: int|
                    0 <= k2 < k && (contains_seq(#[trigger] fsv[k2], "Box < dyn"@) || contains_seq(
                        fsv[k2],
                        "Arc < dyn"@,
                    )))),
        decreases fsv.len() - k,
        {
            assert(fsv[k as int] == fields@[k as int]@);
            let fc = str_to_chars(fields[k].as_str());
            if contains_lit(fc.as_slice(), "Box < dyn") || contains_lit(fc.as_slice(), "Arc < dyn")
            {
                wrapped = true;
            }
            k = k + 1;
        }
        i = i + 1;
    }
    proof {
        if wrapped {
            assert(exists|j: int, k: int|
                0 <= j < sv.len() && 0 <= k < (#[trigger] sv[j]).len() && (contains_seq(
                    #[trigger] sv[j][k],
                    "Box < dyn"@,
                ) || contains_seq(sv[j][k], "Arc < dyn"@)));
        }
    }
    wrapped && any_trait_impl(source)
}

/// Check Rust source for Singleton structure: static or lazy initialization
/// indicators, or an instance accessor.
pub fn check_singleton(source: &str) -> (r: bool)
    ensures
        r == singleton_evidence(source@),
{
    let sc = str_to_chars(source);
    contains_lit(sc.as_slice(), "lazy_static!") || contains_lit(
        sc.as_slice(),
        "once_cell::sync::Lazy",
    ) || contains_lit(sc.as_slice(), "OnceLock") || contains_lit(sc.as_slice(), "OnceCell")
        || contains_lit(sc.as_slice(), "static ref ") || contains_lit(
        sc.as_slice(),
        "fn instance()",
    ) || contains_lit(sc.as_slice(), "fn get_instance()")
}

/// Check Rust source for Command structure: a trait method from the command
/// vocabulary.
pub fn check_command(source: &str) -> (r: bool)
    ensures
        r == command_evidence(source@),
{
    let names = syn_trait_method_names(source);
    any_command_name(&names)
}

/// Run the heuristic for a named pattern; unknown names have no evidence.
pub fn check_pattern(pattern: &str, source: &str) -> (r: bool)
    ensures
        r == pattern_evidence(pattern@, source@),
{
    let pc = str_to_chars(pattern);
    if chars_eq_str(pc.as_slice(), "Observer") {
        check_observer(source)
    } else if chars_eq_str(pc.as_slice(), "Strategy") {
        check_strategy(source)
    } else if chars_eq_str(pc.as_slice(), "Facade") {
        check_facade(source)
    } else if chars_eq_str(pc.as_slice(), "Builder") {
        check_builder(source)
    } else if chars_eq_str(pc.as_slice(), "Factory") {
        check_factory(source)
    } else if chars_eq_str(pc.as_slice(), "Adapter") {
        check_adapter(source)
    } else if chars_eq_str(pc.as_slice(), "Decorator") {
        check_decorator(source)
    } else if chars_eq_str(pc.as_slice(), "Singleton") {
        check_singleton(source)
    } else if chars_eq_str(pc.as_slice(), "Command") {
        check_command(source)
    } else {
        false
    }
}

/// Scan a module's `(filename, source)` pairs for structural evidence.
///
/// The module-level result is existential: one file with evidence for the
/// pattern is sufficient, however many files lack it.
#[verifier::loop_isolation(false)]
pub fn check_module_pattern(pattern: &str, sources: &Vec<(String, String)>) -> (r: bool)
    ensures
        r == module_evidence(pattern@, tree_view(sources@)),
{
    let ghost sv = tree_view(sources@);
    let mut i: usize = 0;
    while i < sources.len()
        invariant
            sv == tree_view(sources@),
            sv.len() == sources@.len(),
            i <= sources@.len(),
            forall|j: int| 0 <= j < i ==> !pattern_evidence(pattern@, (#[trigger] sv[j]).1),
        decreases sources@.len() - i,
    {
        assert(sv[i as int] == (sources@[i as int].0@, sources@[i as int].1@));
        if check_pattern(pattern, sources[i].1.as_str()) {
            return true;
        }
        i = i + 1;
    }
    false
}

} // verus!
