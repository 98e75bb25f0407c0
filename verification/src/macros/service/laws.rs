//! What holds of the attributes and the methods of services.

use vstd::prelude::*;

use super::attrs;
use super::attrs::{ServiceAttrs, ServiceAttrsView};
use super::method;
use super::method::{
    ImplMethod, MethodAttrs, MethodAttrsView, MethodInfo, ParamAttrs, ParamAttrsView,
};
use super::types;
use super::types::{
    BoundTypeView, FnArg, FnArgView, GenericArgView, ParamInfo, ParamInfoView, SegmentView, TypeView,
};
use crate::macros::meta;
use crate::macros::meta::{
    Attribute, AttributeArgsView, AttributeView, MetaFormView, MetaItemView, MetaValueView,
};
use crate::macros::nested;
use crate::macros::nested::{EntryView, NestedView};
use crate::macros::tokens;
use crate::text;

verus! {

/// The attributes of a service that are a text as it stands.
pub enum TextKey {
    /// The interface of the methods.
    Interface,
    /// The vendor of the service.
    Vendor,
    /// The product that the service is.
    Product,
    /// The version of the service.
    Version,
    /// Where to read about the service.
    Url,
}

/// How an attribute is written.
pub open spec fn key_text(key: TextKey) -> Seq<char> {
    match key {
        TextKey::Interface => "interface"@,
        TextKey::Vendor => "vendor"@,
        TextKey::Product => "product"@,
        TextKey::Version => "version"@,
        TextKey::Url => "url"@,
    }
}

/// What an attribute is.
pub open spec fn held(a: ServiceAttrsView, key: TextKey) -> Option<Seq<char>> {
    match key {
        TextKey::Interface => a.interface,
        TextKey::Vendor => a.vendor,
        TextKey::Product => a.product,
        TextKey::Version => a.version,
        TextKey::Url => a.url,
    }
}

proof fn lemma_keys_differ()
    ensures
        forall|key: TextKey| #[trigger] key_text(key) != "types"@ && key_text(key) != "crate"@,
        forall|key: TextKey, other: TextKey|
            key != other ==> #[trigger] key_text(key) != #[trigger] key_text(other),
        "types"@ != "crate"@,
{
    reveal_strlit("types");
    reveal_strlit("crate");
    reveal_strlit("interface");
    reveal_strlit("vendor");
    reveal_strlit("product");
    reveal_strlit("version");
    reveal_strlit("url");
    assert("types"@[0] != "crate"@[0]);
    assert("product"@[0] != "version"@[0]);
    assert("types"@.len() == 5 && "crate"@.len() == 5 && "interface"@.len() == 9);
    assert("vendor"@.len() == 6 && "product"@.len() == 7 && "version"@.len() == 7);
    assert("url"@.len() == 3);
}

/// Whether an entry of the attributes of a service has a meaning: one of the seven keys, with a value
/// that fits it.
pub open spec fn is_understood(e: EntryView) -> bool {
    ||| e.key == Some("types"@) && e.list is Ok && attrs::types_of(e.list->Ok_0) is Ok
    ||| e.key == Some("crate"@) && e.text is Ok && tokens::stream_text_of(e.text->Ok_0) is Ok
    ||| e.text is Ok && exists|key: TextKey| e.key == Some(#[trigger] key_text(key))
}

proof fn lemma_one_entry(a: ServiceAttrsView, e: EntryView)
    ensures
        attrs::with_entry(a, e) is Ok <==> is_understood(e),
{
    lemma_keys_differ();
    assert(key_text(TextKey::Interface) == "interface"@);
    assert(key_text(TextKey::Vendor) == "vendor"@);
    assert(key_text(TextKey::Product) == "product"@);
    assert(key_text(TextKey::Version) == "version"@);
    assert(key_text(TextKey::Url) == "url"@);
    if is_understood(e) && e.key != Some("types"@) && e.key != Some("crate"@) {
        let key = choose|key: TextKey| e.key == Some(#[trigger] key_text(key));
        assert(e.key == Some(key_text(key)));
    }
}

proof fn lemma_entries_understood(a: ServiceAttrsView, entries: Seq<EntryView>, i: int)
    requires
        0 <= i <= entries.len(),
    ensures
        attrs::with_entries(a, entries, i) is Ok <==> forall|j: int|
            i <= j < entries.len() ==> is_understood(#[trigger] entries[j]),
    decreases entries.len() - i,
{
    if i < entries.len() {
        lemma_one_entry(a, entries[i]);
        if attrs::with_entry(a, entries[i]) is Ok {
            lemma_entries_understood(attrs::with_entry(a, entries[i])->Ok_0, entries, i + 1);
        } else {
            assert(!is_understood(entries[i]));
        }
    }
}

/// The attributes of a service are accepted where every entry has a meaning and nothing else is wrong,
/// and refused otherwise.
pub proof fn law_attributes_without_meaning_are_refused(n: NestedView)
    ensures
        attrs::attrs_of(n) is Ok <==> n.error is None && forall|j: int|
            0 <= j < n.entries.len() ==> is_understood(#[trigger] n.entries[j]),
{
    lemma_entries_understood(attrs::no_attrs(), n.entries, 0);
}

proof fn lemma_text_key(
    a: ServiceAttrsView,
    entries: Seq<EntryView>,
    i: int,
    key: TextKey,
    k: int,
)
    requires
        0 <= i <= entries.len(),
        attrs::with_entries(a, entries, i) is Ok,
        k < entries.len(),
        i <= k ==> entries[k].key == Some(key_text(key)),
        forall|j: int|
            i <= j < entries.len() && k < j ==> (#[trigger] entries[j]).key != Some(key_text(key)),
    ensures
        i <= k ==> entries[k].text is Ok && held(
            attrs::with_entries(a, entries, i)->Ok_0,
            key,
        ) == Some(entries[k].text->Ok_0),
        k < i ==> held(attrs::with_entries(a, entries, i)->Ok_0, key) == held(a, key),
    decreases entries.len() - i,
{
    lemma_keys_differ();
    if i < entries.len() {
        let next = attrs::with_entry(a, entries[i])->Ok_0;
        lemma_text_key(next, entries, i + 1, key, k);
        if k != i {
            if k < i {
                assert(entries[i].key != Some(key_text(key)));
                assert(held(next, key) == held(a, key));
            }
        } else {
            assert(key_text(TextKey::Interface) == "interface"@);
            assert(key_text(TextKey::Vendor) == "vendor"@);
            assert(key_text(TextKey::Product) == "product"@);
            assert(key_text(TextKey::Version) == "version"@);
            assert(key_text(TextKey::Url) == "url"@);
            assert(held(next, key) == Some(entries[k].text->Ok_0));
        }
    }
}

/// Each key sets the attribute of its name to the text that is given to it, of several the last; an
/// attribute that no entry names is absent.
pub proof fn law_every_key_sets_its_attribute(n: NestedView, key: TextKey, k: int)
    requires
        attrs::attrs_of(n) is Ok,
        -1 <= k < n.entries.len(),
        0 <= k ==> n.entries[k].key == Some(key_text(key)),
        forall|j: int| k < j < n.entries.len() ==> (#[trigger] n.entries[j]).key != Some(
            key_text(key),
        ),
    ensures
        0 <= k ==> n.entries[k].text is Ok && held(attrs::attrs_of(n)->Ok_0, key) == Some(
            n.entries[k].text->Ok_0,
        ),
        k == -1 ==> held(attrs::attrs_of(n)->Ok_0, key) is None,
{
    lemma_text_key(attrs::no_attrs(), n.entries, 0, key, k);
}

proof fn lemma_other_keys(
    a: ServiceAttrsView,
    entries: Seq<EntryView>,
    i: int,
    key: Seq<char>,
    k: int,
)
    requires
        0 <= i <= entries.len(),
        attrs::with_entries(a, entries, i) is Ok,
        key == "types"@ || key == "crate"@,
        k < entries.len(),
        i <= k ==> entries[k].key == Some(key),
        forall|j: int| i <= j < entries.len() && k < j ==> (#[trigger] entries[j]).key != Some(key),
    ensures
        key == "types"@ && i <= k ==> entries[k].list is Ok && attrs::types_of(
            entries[k].list->Ok_0,
        ) == Ok::<Seq<Seq<char>>, Seq<char>>(
            attrs::with_entries(a, entries, i)->Ok_0.custom_types,
        ),
        key == "types"@ && k < i ==> attrs::with_entries(a, entries, i)->Ok_0.custom_types
            == a.custom_types,
        key == "crate"@ && i <= k ==> entries[k].text is Ok && tokens::stream_text_of(
            entries[k].text->Ok_0,
        ) == Ok::<Seq<char>, Seq<char>>(attrs::with_entries(a, entries, i)->Ok_0.crate_path),
        key == "crate"@ && k < i ==> attrs::with_entries(a, entries, i)->Ok_0.crate_path
            == a.crate_path,
    decreases entries.len() - i,
{
    lemma_keys_differ();
    if i < entries.len() {
        let next = attrs::with_entry(a, entries[i])->Ok_0;
        lemma_other_keys(next, entries, i + 1, key, k);
        if k < i {
            assert(entries[i].key != Some(key));
        }
    }
}

/// The custom types of a service are those of the last `types`, or none; the path to the library is
/// that of the last `crate`, or the usual one.
pub proof fn law_types_and_path_are_those_given(n: NestedView, key: Seq<char>, k: int)
    requires
        attrs::attrs_of(n) is Ok,
        key == "types"@ || key == "crate"@,
        -1 <= k < n.entries.len(),
        0 <= k ==> n.entries[k].key == Some(key),
        forall|j: int| k < j < n.entries.len() ==> (#[trigger] n.entries[j]).key != Some(key),
    ensures
        key == "types"@ && 0 <= k ==> n.entries[k].list is Ok && attrs::types_of(
            n.entries[k].list->Ok_0,
        ) == Ok::<Seq<Seq<char>>, Seq<char>>(attrs::attrs_of(n)->Ok_0.custom_types),
        key == "types"@ && k == -1 ==> attrs::attrs_of(n)->Ok_0.custom_types.len() == 0,
        key == "crate"@ && 0 <= k ==> n.entries[k].text is Ok && tokens::stream_text_of(
            n.entries[k].text->Ok_0,
        ) == Ok::<Seq<char>, Seq<char>>(attrs::attrs_of(n)->Ok_0.crate_path),
        key == "crate"@ && k == -1 ==> attrs::attrs_of(n)->Ok_0.crate_path == "::zlink"@,
{
    lemma_other_keys(attrs::no_attrs(), n.entries, 0, key, k);
}

proof fn lemma_first_refused(a: ServiceAttrsView, entries: Seq<EntryView>, i: int, k: int)
    requires
        0 <= i <= k < entries.len(),
        forall|j: int| i <= j < k ==> is_understood(#[trigger] entries[j]),
        !is_understood(entries[k]),
    ensures
        exists|b: ServiceAttrsView|
            attrs::with_entries(a, entries, i) == #[trigger] attrs::with_entry(b, entries[k]),
    decreases k - i,
{
    lemma_one_entry(a, entries[i]);
    if i < k {
        assert(is_understood(entries[i]));
        let next = attrs::with_entry(a, entries[i])->Ok_0;
        lemma_first_refused(next, entries, i + 1, k);
        let b = choose|b: ServiceAttrsView|
            attrs::with_entries(next, entries, i + 1) == #[trigger] attrs::with_entry(
                b,
                entries[k],
            );
        assert(attrs::with_entries(a, entries, i) == attrs::with_entry(b, entries[k]));
    } else {
        assert(attrs::with_entries(a, entries, i) == attrs::with_entry(a, entries[k]));
    }
}

/// What is refused is the first entry without a meaning, and the error says what is wrong with it.
pub proof fn law_the_first_wrong_attribute_is_told(n: NestedView, k: int)
    requires
        0 <= k < n.entries.len(),
        forall|j: int| 0 <= j < k ==> is_understood(#[trigger] n.entries[j]),
        !is_understood(n.entries[k]),
    ensures
        ({
            let e = n.entries[k];
            let message = if e.key == Some("types"@) {
                match e.list {
                    Err(message) => message,
                    Ok(list) => attrs::types_of(list)->Err_0,
                }
            } else if e.key == Some("crate"@) {
                match e.text {
                    Err(message) => message,
                    Ok(path) => tokens::stream_text_of(path)->Err_0,
                }
            } else if exists|key: TextKey| e.key == Some(#[trigger] key_text(key)) {
                e.text->Err_0
            } else {
                "unsupported service attribute"@
            };
            attrs::attrs_of(n) == Err::<ServiceAttrsView, Seq<char>>(
                "failed to parse service attributes: "@ + message
                    + ". Expected: #[service] or #[service(crate = \"path\")]"@,
            )
        }),
{
    lemma_keys_differ();
    lemma_first_refused(attrs::no_attrs(), n.entries, 0, k);
    let e = n.entries[k];
    let b = choose|b: ServiceAttrsView|
        attrs::with_entries(attrs::no_attrs(), n.entries, 0) == #[trigger] attrs::with_entry(
            b,
            n.entries[k],
        );
    assert(key_text(TextKey::Interface) == "interface"@);
    assert(key_text(TextKey::Vendor) == "vendor"@);
    assert(key_text(TextKey::Product) == "product"@);
    assert(key_text(TextKey::Version) == "version"@);
    assert(key_text(TextKey::Url) == "url"@);
    if exists|key: TextKey| e.key == Some(#[trigger] key_text(key)) {
        let key = choose|key: TextKey| e.key == Some(#[trigger] key_text(key));
        assert(e.key == Some(key_text(key)));
    }
    lemma_one_entry(b, e);
}

/// Without arguments a service has none of the attributes, no custom types and the usual path to the
/// library; any arguments are read as entries, and what is wrong with those as a whole is the error.
pub proof fn law_services_may_go_without_attributes(source: Seq<char>, n: NestedView, message: Seq<char>)
    ensures
        source.len() == 0 ==> attrs::attrs_in(source) == Ok::<ServiceAttrsView, Seq<char>>(
            ServiceAttrsView {
                crate_path: "::zlink"@,
                interface: None,
                custom_types: seq![],
                vendor: None,
                product: None,
                version: None,
                url: None,
            },
        ),
        source.len() > 0 ==> attrs::attrs_in(source) == attrs::attrs_of(
            nested::nested_of(tokens::tokens_of(source)),
        ),
        n.error == Some(message) && (forall|j: int|
            0 <= j < n.entries.len() ==> is_understood(#[trigger] n.entries[j]))
            ==> attrs::attrs_of(n) == Err::<ServiceAttrsView, Seq<char>>(
            "failed to parse service attributes: "@ + message
                + ". Expected: #[service] or #[service(crate = \"path\")]"@,
        ),
{
    lemma_entries_understood(attrs::no_attrs(), n.entries, 0);
}

/// Whether an item of an attribute of a method has a meaning.
pub open spec fn is_method_item(item: MetaItemView) -> bool {
    match item.form {
        MetaFormView::Path => item.path == Some("more"@) || item.path == Some("return_fds"@),
        MetaFormView::NameValue(MetaValueView::Text(_)) => item.path == Some("interface"@)
            || item.path == Some("rename"@),
        _ => false,
    }
}

/// Whether an item stands alone under a name.
pub open spec fn is_flag(item: MetaItemView, name: Seq<char>) -> bool {
    item.form is Path && item.path == Some(name)
}

/// Whether an item gives a text to a name.
pub open spec fn gives(item: MetaItemView, name: Seq<char>) -> Option<Seq<char>> {
    match item.form {
        MetaFormView::NameValue(MetaValueView::Text(value)) => if item.path == Some(name) {
            Some(value)
        } else {
            None
        },
        _ => None,
    }
}

proof fn lemma_item_names_differ()
    ensures
        "interface"@ != "rename"@,
        "more"@ != "return_fds"@,
        "connection"@ != "fds"@,
{
    reveal_strlit("interface");
    reveal_strlit("rename");
    reveal_strlit("more");
    reveal_strlit("return_fds");
    reveal_strlit("connection");
    reveal_strlit("fds");
    assert("interface"@.len() == 9 && "rename"@.len() == 6);
    assert("more"@.len() == 4 && "return_fds"@.len() == 10);
    assert("connection"@.len() == 10 && "fds"@.len() == 3);
}

proof fn lemma_method_items(a: MethodAttrsView, items: Seq<MetaItemView>, i: int)
    requires
        0 <= i <= items.len(),
    ensures
        method::with_items(a, items, i) is Ok <==> forall|j: int|
            i <= j < items.len() ==> is_method_item(#[trigger] items[j]),
        method::with_items(a, items, i) matches Ok(r) ==> {
            &&& r.more <==> a.more || exists|j: int|
                i <= j < items.len() && is_flag(#[trigger] items[j], "more"@)
            &&& r.return_fds <==> a.return_fds || exists|j: int|
                i <= j < items.len() && is_flag(#[trigger] items[j], "return_fds"@)
        },
    decreases items.len() - i,
{
    lemma_item_names_differ();
    if i < items.len() {
        let item = items[i];
        if is_method_item(item) {
            let next = match item.form {
                MetaFormView::Path => if item.path == Some("more"@) {
                    MethodAttrsView { more: true, ..a }
                } else {
                    MethodAttrsView { return_fds: true, ..a }
                },
                MetaFormView::NameValue(MetaValueView::Text(name)) => if item.path == Some(
                    "interface"@,
                ) {
                    MethodAttrsView { interface: Some(name), ..a }
                } else {
                    MethodAttrsView { rename: Some(name), ..a }
                },
                _ => a,
            };
            lemma_method_items(next, items, i + 1);
            assert(method::with_items(a, items, i) == method::with_items(next, items, i + 1));
            assert(is_flag(items[i], "more"@) || !is_flag(items[i], "more"@));
        } else {
            assert(!is_method_item(items[i]));
        }
    }
}

/// The attributes of a method are accepted where every item has a meaning. A flag is then set by the
/// items of its name and by nothing else.
pub proof fn law_flags_are_set_by_their_names(a: MethodAttrsView, items: Seq<MetaItemView>)
    ensures
        method::with_items(a, items, 0) is Ok <==> forall|j: int|
            0 <= j < items.len() ==> is_method_item(#[trigger] items[j]),
        method::with_items(a, items, 0) matches Ok(r) ==> {
            &&& r.more <==> a.more || exists|j: int|
                0 <= j < items.len() && is_flag(#[trigger] items[j], "more"@)
            &&& r.return_fds <==> a.return_fds || exists|j: int|
                0 <= j < items.len() && is_flag(#[trigger] items[j], "return_fds"@)
        },
{
    lemma_method_items(a, items, 0);
}

proof fn lemma_first_wrong_item(a: MethodAttrsView, items: Seq<MetaItemView>, i: int, k: int)
    requires
        0 <= i <= k < items.len(),
        forall|j: int| i <= j < k ==> is_method_item(#[trigger] items[j]),
        !is_method_item(items[k]),
    ensures
        method::with_items(a, items, i) == Err::<MethodAttrsView, Seq<char>>(
            what_is_wrong(items[k]),
        ),
    decreases k - i,
{
    lemma_item_names_differ();
    if i < k {
        let item = items[i];
        assert(is_method_item(item));
        let next = match item.form {
            MetaFormView::Path => if item.path == Some("more"@) {
                MethodAttrsView { more: true, ..a }
            } else {
                MethodAttrsView { return_fds: true, ..a }
            },
            MetaFormView::NameValue(MetaValueView::Text(value)) => if item.path == Some(
                "interface"@,
            ) {
                MethodAttrsView { interface: Some(value), ..a }
            } else {
                MethodAttrsView { rename: Some(value), ..a }
            },
            _ => a,
        };
        assert(method::with_items(a, items, i) == method::with_items(next, items, i + 1));
        lemma_first_wrong_item(next, items, i + 1, k);
    }
}

/// What is wrong with an item that has no meaning: a name that is given something else than a text, or
/// a name that is not known.
pub open spec fn what_is_wrong(item: MetaItemView) -> Seq<char> {
    if item.form is NameValue && item.path == Some("interface"@) {
        "interface value must be a string literal"@
    } else if item.form is NameValue && item.path == Some("rename"@) {
        "rename value must be a string literal"@
    } else {
        "unknown zlink attribute"@
    }
}

/// Of the items of a method's attributes, the first that has no meaning is the error.
pub proof fn law_the_first_wrong_item_is_told(
    a: MethodAttrsView,
    items: Seq<MetaItemView>,
    k: int,
)
    requires
        0 <= k < items.len(),
        forall|j: int| 0 <= j < k ==> is_method_item(#[trigger] items[j]),
        !is_method_item(items[k]),
    ensures
        method::with_items(a, items, 0) == Err::<MethodAttrsView, Seq<char>>(
            what_is_wrong(items[k]),
        ),
{
    lemma_first_wrong_item(a, items, 0, k);
}

proof fn lemma_method_names(
    a: MethodAttrsView,
    items: Seq<MetaItemView>,
    i: int,
    name: Seq<char>,
    k: int,
)
    requires
        0 <= i <= items.len(),
        method::with_items(a, items, i) is Ok,
        name == "interface"@ || name == "rename"@,
        k < items.len(),
        i <= k ==> gives(items[k], name) is Some,
        forall|j: int| i <= j < items.len() && k < j ==> gives(#[trigger] items[j], name) is None,
    ensures
        ({
            let r = method::with_items(a, items, i)->Ok_0;
            let (found, before) = if name == "interface"@ {
                (r.interface, a.interface)
            } else {
                (r.rename, a.rename)
            };
            found == if i <= k {
                gives(items[k], name)
            } else {
                before
            }
        }),
    decreases items.len() - i,
{
    lemma_item_names_differ();
    if i < items.len() {
        let item = items[i];
        let next = match item.form {
            MetaFormView::Path => if item.path == Some("more"@) {
                MethodAttrsView { more: true, ..a }
            } else {
                MethodAttrsView { return_fds: true, ..a }
            },
            MetaFormView::NameValue(MetaValueView::Text(value)) => if item.path == Some(
                "interface"@,
            ) {
                MethodAttrsView { interface: Some(value), ..a }
            } else {
                MethodAttrsView { rename: Some(value), ..a }
            },
            _ => a,
        };
        assert(method::with_items(a, items, i) == method::with_items(next, items, i + 1));
        lemma_method_names(next, items, i + 1, name, k);
        if k < i {
            assert(gives(items[i], name) is None);
        }
    }
}

/// The interface and the name of a method are the texts that are given to `interface` and `rename`, of
/// several the last; where none is given, they stay what they were.
pub proof fn law_names_are_those_given(
    a: MethodAttrsView,
    items: Seq<MetaItemView>,
    name: Seq<char>,
    k: int,
)
    requires
        method::with_items(a, items, 0) is Ok,
        name == "interface"@ || name == "rename"@,
        -1 <= k < items.len(),
        0 <= k ==> gives(items[k], name) is Some,
        forall|j: int| k < j < items.len() ==> gives(#[trigger] items[j], name) is None,
    ensures
        ({
            let r = method::with_items(a, items, 0)->Ok_0;
            let (found, before) = if name == "interface"@ {
                (r.interface, a.interface)
            } else {
                (r.rename, a.rename)
            };
            found == if 0 <= k {
                gives(items[k], name)
            } else {
                before
            }
        }),
{
    lemma_method_names(a, items, 0, name, k);
}

proof fn lemma_attrs_step(a: MethodAttrsView, attrs: Seq<AttributeView>, i: int)
    requires
        0 <= i < attrs.len(),
    ensures
        method::with_attrs(a, attrs, i) == match method::with_attrs(a, seq![attrs[i]], 0) {
            Ok(b) => method::with_attrs(b, attrs, i + 1),
            Err(message) => Err(message),
        },
{
    reveal_with_fuel(method::with_attrs, 2);
}

proof fn lemma_attrs_shifted(
    a: MethodAttrsView,
    first: Seq<AttributeView>,
    second: Seq<AttributeView>,
    i: int,
)
    requires
        0 <= i <= second.len(),
    ensures
        method::with_attrs(a, first + second, first.len() + i) == method::with_attrs(a, second, i),
    decreases second.len() - i,
{
    if i < second.len() {
        assert((first + second)[first.len() + i] == second[i]);
        lemma_attrs_step(a, first + second, first.len() + i);
        lemma_attrs_step(a, second, i);
        if let Ok(b) = method::with_attrs(a, seq![second[i]], 0) {
            lemma_attrs_shifted(b, first, second, i + 1);
        }
    }
}

proof fn lemma_attrs_split(
    a: MethodAttrsView,
    first: Seq<AttributeView>,
    second: Seq<AttributeView>,
    i: int,
)
    requires
        0 <= i <= first.len(),
    ensures
        method::with_attrs(a, first + second, i) == match method::with_attrs(a, first, i) {
            Ok(b) => method::with_attrs(b, second, 0),
            Err(message) => Err(message),
        },
    decreases first.len() - i,
{
    if i < first.len() {
        assert((first + second)[i] == first[i]);
        lemma_attrs_step(a, first + second, i);
        lemma_attrs_step(a, first, i);
        if let Ok(b) = method::with_attrs(a, seq![first[i]], 0) {
            lemma_attrs_split(b, first, second, i + 1);
        }
    } else {
        lemma_attrs_shifted(a, first, second, 0);
    }
}

/// The attributes of a method add up in their order, the first that is wrong being the error; and only
/// the items of `zlink` attributes add something.
pub proof fn law_method_attributes_add_up(
    a: MethodAttrsView,
    first: Seq<AttributeView>,
    second: Seq<AttributeView>,
    one: AttributeView,
)
    ensures
        method::with_attrs(a, first + second, 0) == match method::with_attrs(a, first, 0) {
            Ok(b) => method::with_attrs(b, second, 0),
            Err(message) => Err(message),
        },
        method::with_attrs(a, seq![], 0) == Ok::<MethodAttrsView, Seq<char>>(a),
        one.path != Some("zlink"@) ==> method::with_attrs(a, seq![one], 0) == Ok::<
            MethodAttrsView,
            Seq<char>,
        >(a),
        one.path == Some("zlink"@) ==> match one.args {
            AttributeArgsView::List(tokens) => tokens.len() > 0 ==> match meta::items_of(tokens) {
                Ok(items) => method::with_attrs(a, seq![one], 0) == method::with_items(a, items, 0),
                Err(message) => method::with_attrs(a, seq![one], 0) == Err::<
                    MethodAttrsView,
                    Seq<char>,
                >(message),
            },
            _ => method::with_attrs(a, seq![one], 0) == Ok::<MethodAttrsView, Seq<char>>(a),
        },
        method::method_attrs_of(first) == method::with_attrs(
            MethodAttrsView { interface: None, rename: None, more: false, return_fds: false },
            first,
            0,
        ),
{
    lemma_attrs_split(a, first, second, 0);
    reveal_with_fuel(method::with_attrs, 2);
}

/// What is left on a method are the attributes that are no `zlink` attributes, all of them and in
/// their order.
pub proof fn law_other_attributes_are_left(attrs: Seq<Attribute>)
    ensures
        method::other_attrs(attrs, 0) == attrs.filter(|a: Attribute| a@.path != Some("zlink"@)),
{
    lemma_other_attributes(attrs, 0);
    assert(attrs.skip(0) =~= attrs);
}

proof fn lemma_other_attributes(attrs: Seq<Attribute>, i: int)
    requires
        0 <= i <= attrs.len(),
    ensures
        method::other_attrs(attrs, i) == attrs.skip(i).filter(
            |a: Attribute| a@.path != Some("zlink"@),
        ),
    decreases attrs.len() - i,
{
    let other = |a: Attribute| a@.path != Some("zlink"@);
    if i < attrs.len() {
        lemma_other_attributes(attrs, i + 1);
        let one = seq![attrs[i]];
        assert(attrs.skip(i) =~= one + attrs.skip(i + 1));
        Seq::filter_distributes_over_add(one, attrs.skip(i + 1), other);
        assert(one.filter(other) =~= if other(attrs[i]) {
            one
        } else {
            seq![]
        }) by {
            reveal_with_fuel(Seq::<_>::filter, 2);
            assert(one.drop_last() =~= seq![]);
        }
        assert(method::other_attrs(attrs, i) =~= attrs.skip(i).filter(other));
    } else {
        reveal(Seq::filter);
        assert(attrs.skip(i) =~= seq![]);
    }
}

proof fn lemma_param_items(a: ParamAttrsView, items: Seq<MetaItemView>, i: int)
    requires
        0 <= i <= items.len(),
    ensures
        ({
            let r = method::with_param_items(a, items, i);
            &&& r.is_connection <==> a.is_connection || exists|j: int|
                i <= j < items.len() && is_flag(#[trigger] items[j], "connection"@)
            &&& r.is_fds <==> a.is_fds || exists|j: int|
                i <= j < items.len() && is_flag(#[trigger] items[j], "fds"@)
        }),
    decreases items.len() - i,
{
    lemma_item_names_differ();
    if i < items.len() {
        lemma_param_items(method::with_param_item(a, items[i]), items, i + 1);
        assert(is_flag(items[i], "fds"@) || !is_flag(items[i], "fds"@));
    }
}

proof fn lemma_param_rename(a: ParamAttrsView, items: Seq<MetaItemView>, i: int, k: int)
    requires
        0 <= i <= items.len(),
        k < items.len(),
        i <= k ==> gives(items[k], "rename"@) is Some,
        forall|j: int|
            i <= j < items.len() && k < j ==> gives(#[trigger] items[j], "rename"@) is None,
    ensures
        method::with_param_items(a, items, i).rename == if i <= k {
            gives(items[k], "rename"@)
        } else {
            a.rename
        },
    decreases items.len() - i,
{
    if i < items.len() {
        lemma_param_rename(method::with_param_item(a, items[i]), items, i + 1, k);
        if k < i {
            assert(gives(items[i], "rename"@) is None);
        }
    }
}

/// A parameter receives the connection or the file descriptors where an item of its attributes says
/// so, and it has the name on the wire that the last `rename` gives it.
pub proof fn law_parameters_are_what_their_items_say(
    a: ParamAttrsView,
    items: Seq<MetaItemView>,
    k: int,
)
    requires
        -1 <= k < items.len(),
        0 <= k ==> gives(items[k], "rename"@) is Some,
        forall|j: int| k < j < items.len() ==> gives(#[trigger] items[j], "rename"@) is None,
    ensures
        ({
            let r = method::with_param_items(a, items, 0);
            &&& r.is_connection <==> a.is_connection || exists|j: int|
                0 <= j < items.len() && is_flag(#[trigger] items[j], "connection"@)
            &&& r.is_fds <==> a.is_fds || exists|j: int|
                0 <= j < items.len() && is_flag(#[trigger] items[j], "fds"@)
            &&& r.rename == if 0 <= k {
                gives(items[k], "rename"@)
            } else {
                a.rename
            }
        }),
{
    lemma_param_items(a, items, 0);
    lemma_param_rename(a, items, 0, k);
}

proof fn lemma_param_attrs_step(a: ParamAttrsView, attrs: Seq<AttributeView>, i: int)
    requires
        0 <= i < attrs.len(),
    ensures
        method::with_param_attrs(a, attrs, i) == method::with_param_attrs(
            method::with_param_attrs(a, seq![attrs[i]], 0),
            attrs,
            i + 1,
        ),
{
    reveal_with_fuel(method::with_param_attrs, 2);
}

proof fn lemma_param_attrs_shifted(
    a: ParamAttrsView,
    first: Seq<AttributeView>,
    second: Seq<AttributeView>,
    i: int,
)
    requires
        0 <= i <= second.len(),
    ensures
        method::with_param_attrs(a, first + second, first.len() + i) == method::with_param_attrs(
            a,
            second,
            i,
        ),
    decreases second.len() - i,
{
    if i < second.len() {
        assert((first + second)[first.len() + i] == second[i]);
        lemma_param_attrs_step(a, first + second, first.len() + i);
        lemma_param_attrs_step(a, second, i);
        let b = method::with_param_attrs(a, seq![second[i]], 0);
        lemma_param_attrs_shifted(b, first, second, i + 1);
    }
}

proof fn lemma_param_attrs_split(
    a: ParamAttrsView,
    first: Seq<AttributeView>,
    second: Seq<AttributeView>,
    i: int,
)
    requires
        0 <= i <= first.len(),
    ensures
        method::with_param_attrs(a, first + second, i) == method::with_param_attrs(
            method::with_param_attrs(a, first, i),
            second,
            0,
        ),
    decreases first.len() - i,
{
    if i < first.len() {
        assert((first + second)[i] == first[i]);
        lemma_param_attrs_step(a, first + second, i);
        lemma_param_attrs_step(a, first, i);
        let b = method::with_param_attrs(a, seq![first[i]], 0);
        lemma_param_attrs_split(b, first, second, i + 1);
    } else {
        lemma_param_attrs_shifted(a, first, second, 0);
    }
}

/// The attributes of a parameter add up in their order, and only the items of `zlink` attributes that
/// make sense add something.
pub proof fn law_parameter_attributes_add_up(
    a: ParamAttrsView,
    first: Seq<AttributeView>,
    second: Seq<AttributeView>,
    one: AttributeView,
)
    ensures
        method::with_param_attrs(a, first + second, 0) == method::with_param_attrs(
            method::with_param_attrs(a, first, 0),
            second,
            0,
        ),
        method::with_param_attrs(a, seq![], 0) == a,
        method::with_param_attrs(a, seq![one], 0) == match one.args {
            AttributeArgsView::List(tokens) => if one.path == Some("zlink"@) && meta::items_of(
                tokens,
            ) is Ok {
                method::with_param_items(a, meta::items_of(tokens)->Ok_0, 0)
            } else {
                a
            },
            _ => a,
        },
        method::param_attrs_of(first) == method::with_param_attrs(
            ParamAttrsView { rename: None, is_connection: false, is_fds: false },
            first,
            0,
        ),
{
    lemma_param_attrs_split(a, first, second, 0);
    reveal_with_fuel(method::with_param_attrs, 2);
}

/// The parameters of a method are its arguments but the first, in their order, each with its name, its
/// type and what its attributes say. The one that is named `more` says whether more is wanted, where
/// the method replies with a stream.
pub proof fn law_parameters_are_the_arguments(inputs: Seq<FnArgView>, n: int, streaming: bool)
    requires
        1 <= n <= inputs.len(),
        forall|k: int| 1 <= k < n ==> (#[trigger] inputs[k] matches FnArgView::Typed { ident, .. } && ident is Some),
    ensures
        method::params_of(inputs, n, streaming).len() == n - 1,
        forall|k: int|
            #![trigger method::params_of(inputs, n, streaming)[k]]
            0 <= k < n - 1 ==> {
                let p = method::params_of(inputs, n, streaming)[k];
                &&& Some(p.name) == inputs[k + 1]->ident
                &&& p.ty == inputs[k + 1]->ty
                &&& p.serialized_name == method::param_attrs_of(inputs[k + 1]->attrs).rename
                &&& p.is_connection == method::param_attrs_of(inputs[k + 1]->attrs).is_connection
                &&& p.is_fds == method::param_attrs_of(inputs[k + 1]->attrs).is_fds
                &&& p.is_more == (streaming && inputs[k + 1]->ident == Some("more"@))
            },
    decreases n,
{
    if n > 1 {
        law_parameters_are_the_arguments(inputs, n - 1, streaming);
        assert(inputs[n - 1] is Typed);
    }
}

/// An argument without a name is no parameter.
pub proof fn law_arguments_without_names_do_not_count(
    inputs: Seq<FnArgView>,
    n: int,
    streaming: bool,
)
    requires
        1 < n <= inputs.len(),
        inputs[n - 1] matches FnArgView::Typed { ident, .. } ==> ident is None,
    ensures
        method::params_of(inputs, n, streaming) == method::params_of(inputs, n - 1, streaming),
{
}

/// A method that returns a `Result` sends the first of its types, or nothing where that is the empty
/// tuple, and its errors have the second. Any other type is sent as it is, and without a type nothing
/// is sent.
pub proof fn law_results_are_taken_apart(
    ty: TypeView,
    s: SegmentView,
    rest: Seq<GenericArgView>,
    ok: Seq<char>,
    unit: bool,
    err: Seq<char>,
    other: bool,
)
    requires
        ty.last_segment == Some(s),
    ensures
        s.ident == "Result"@ && s.args == Some(
            seq![
                GenericArgView::Type { text: ok, unit },
                GenericArgView::Type { text: err, unit: other },
            ] + rest,
        ) ==> method::output_of(Some(ty), false, false) == (
            if unit {
                None::<Seq<char>>
            } else {
                Some(ok)
            },
            true,
            Some(err),
        ),
        s.ident != "Result"@ || s.args is None || s.args->0.len() < 2 || s.args->0[0] is Other
            || s.args->0[1] is Other ==> method::output_of(Some(ty), false, false) == (
            Some(ty.text),
            false,
            None::<Seq<char>>,
        ),
        method::output_of(None, false, false) == (None::<Seq<char>>, false, None::<Seq<char>>),
        method::output_of(None, true, false) == (None::<Seq<char>>, false, None::<Seq<char>>),
        method::output_of(None, false, true) == (None::<Seq<char>>, false, None::<Seq<char>>),
        method::output_of(None, true, true) == (None::<Seq<char>>, false, None::<Seq<char>>),
{
    let args = seq![
        GenericArgView::Type { text: ok, unit },
        GenericArgView::Type { text: err, unit: other },
    ] + rest;
    assert(args[0] == GenericArgView::Type { text: ok, unit });
    assert(args[1] == GenericArgView::Type { text: err, unit: other });
}

/// A type without a path is sent as it is.
pub proof fn law_plain_types_are_sent_as_they_are(ty: TypeView)
    requires
        ty.last_segment is None,
    ensures
        method::output_of(Some(ty), false, false) == (Some(ty.text), false, None::<Seq<char>>),
{
}

/// Where file descriptors are returned, they stand second in a pair, and what is sent is what a method
/// sends that returns the first alone.
pub proof fn law_returned_descriptors_are_not_sent_as_parameters(ty: TypeView, first: TypeView)
    requires
        ty.first_of_pair == Some(Box::new(first)),
    ensures
        method::output_of(Some(ty), false, true) == method::output_of(Some(first), false, false),
{
}

/// A method that does not return a pair sends the same whether or not it is said to return file
/// descriptors.
pub proof fn law_only_pairs_hold_descriptors(ty: TypeView, streaming: bool)
    requires
        ty.first_of_pair is None,
        ty.bound_types.len() == 0,
    ensures
        method::output_of(Some(ty), streaming, true) == method::output_of(
            Some(ty),
            streaming,
            false,
        ),
{
}

/// A method that replies with a stream sends the items of the stream, those of the first `Stream` that
/// its type is bound to be: of a `Reply` its parameters, and any other item as it is. It has no type of
/// errors.
pub proof fn law_streams_send_their_items(
    ty: TypeView,
    k: int,
    item: TypeView,
    return_fds: bool,
    param: Seq<char>,
    unit: bool,
    rest: Seq<GenericArgView>,
)
    requires
        0 <= k < ty.bound_types.len(),
        ty.bound_types[k].bound == "Stream"@,
        ty.bound_types[k].name == "Item"@,
        ty.bound_types[k].ty == item,
        forall|j: int|
            0 <= j < k ==> (#[trigger] ty.bound_types[j]).bound != "Stream"@ || ty.bound_types[j].name
                != "Item"@,
        !return_fds || item.first_of_pair is None,
    ensures
        item.last_segment == Some(
            SegmentView {
                ident: "Reply"@,
                args: Some(seq![GenericArgView::Type { text: param, unit }] + rest),
            },
        ) ==> method::output_of(Some(ty), true, return_fds) == (
            Some(param),
            false,
            None::<Seq<char>>,
        ),
        item.last_segment is None || item.last_segment->0.ident != "Reply"@
            || item.last_segment->0.args is None || item.last_segment->0.args->0.len() == 0
            || item.last_segment->0.args->0[0] is Other ==> method::output_of(
            Some(ty),
            true,
            return_fds,
        ) == (Some(item.text), false, None::<Seq<char>>),
{
    lemma_stream_item(ty.bound_types, 0, k);
    let args = seq![GenericArgView::Type { text: param, unit }] + rest;
    assert(args[0] == GenericArgView::Type { text: param, unit });
}

proof fn lemma_stream_item(ts: Seq<BoundTypeView>, i: int, k: int)
    requires
        0 <= i <= k < ts.len(),
        ts[k].bound == "Stream"@,
        ts[k].name == "Item"@,
        forall|j: int|
            i <= j < k ==> (#[trigger] ts[j]).bound != "Stream"@ || ts[j].name != "Item"@,
    ensures
        types::stream_item(ts, i) == Some(ts[k].ty),
    decreases k - i,
{
    if i < k {
        assert(ts[i].bound != "Stream"@ || ts[i].name != "Item"@);
        lemma_stream_item(ts, i + 1, k);
    }
}

/// The items of a stream that are pairs have their file descriptors second: what is sent is what a
/// stream of the first alone sends.
pub proof fn law_items_leave_their_descriptors_aside(
    ty: TypeView,
    plain: TypeView,
    item: BoundTypeView,
    first: TypeView,
)
    requires
        item.bound == "Stream"@,
        item.name == "Item"@,
        item.ty.first_of_pair == Some(Box::new(first)),
        ty.bound_types == seq![item],
        plain.bound_types == seq![BoundTypeView { ty: first, ..item }],
    ensures
        method::output_of(Some(ty), true, true) == method::output_of(Some(plain), true, false),
{
    lemma_stream_item(ty.bound_types, 0, 0);
    lemma_stream_item(plain.bound_types, 0, 0);
}

/// What is known of a method: its own name and body, the name on the wire that `rename` gives it or
/// else its name in Pascal case, and what its attributes, arguments and type say.
pub proof fn law_methods_are_known_by_their_parts(
    m: ImplMethod,
    a: MethodAttrsView,
    current: Option<Seq<char>>,
)
    ensures
        ({
            let r = m.info(a, current);
            let output = method::output_of(
                match m.output {
                    Some(ty) => Some(ty@),
                    None => None,
                },
                a.more,
                a.return_fds,
            );
            &&& r.name == m.name@
            &&& r.body == m.body@
            &&& a.rename is Some ==> r.varlink_name == a.rename->0
            &&& a.rename is None ==> r.varlink_name == method::pascal_words(m.name@, 0)
            &&& a.interface is Some ==> r.interface == a.interface
            &&& a.interface is None ==> r.interface == current
            &&& r.is_streaming == a.more
            &&& r.return_fds == a.return_fds
            &&& r.return_type == output.0
            &&& r.returns_result == output.1
            &&& r.error_type == output.2
            &&& r.params == method::params_of(
                method::inputs_view(m.inputs@),
                m.inputs@.len() as int,
                a.more,
            )
        }),
{
}

proof fn lemma_word_end(s: Seq<char>, i: int, e: int)
    requires
        0 <= i <= e <= s.len(),
        forall|k: int| i <= k < e ==> #[trigger] s[k] != '_',
        e < s.len() ==> s[e] == '_',
    ensures
        method::word_end(s, i) == e,
    decreases e - i,
{
    if i < e {
        assert(s[i] != '_');
        lemma_word_end(s, i + 1, e);
    }
}

proof fn lemma_words_shifted(p: Seq<char>, s: Seq<char>, i: int)
    requires
        0 <= i <= s.len(),
    ensures
        method::word_end(p + s, p.len() + i) == p.len() + method::word_end(s, i),
        method::pascal_words(p + s, p.len() + i) == method::pascal_words(s, i),
    decreases s.len() - i,
{
    lemma_end_shifted(p, s, i);
    let e = method::word_end(s, i);
    if i <= e < s.len() {
        lemma_words_shifted(p, s, e + 1);
        assert((p + s).subrange(p.len() + i, p.len() + e) =~= s.subrange(i, e));
    } else {
        assert((p + s).subrange(p.len() + i, (p + s).len() as int) =~= s.subrange(
            i,
            s.len() as int,
        ));
    }
}

proof fn lemma_end_shifted(p: Seq<char>, s: Seq<char>, i: int)
    requires
        0 <= i <= s.len(),
    ensures
        method::word_end(p + s, p.len() + i) == p.len() + method::word_end(s, i),
    decreases s.len() - i,
{
    if i < s.len() {
        assert((p + s)[p.len() + i] == s[i]);
        lemma_end_shifted(p, s, i + 1);
    }
}

/// The name of a method on the wire has the words of its own name in their order, without the
/// underscores between them, and each begins with a capital letter and has small ones behind it.
pub proof fn law_words_are_capitalized_in_order(word: Seq<char>, rest: Seq<char>)
    requires
        forall|k: int| 0 <= k < word.len() ==> #[trigger] word[k] != '_',
    ensures
        method::pascal_words(word, 0) == method::capitalized(word),
        method::pascal_words(word + seq!['_'] + rest, 0) == method::capitalized(word)
            + method::pascal_words(rest, 0),
        word.len() == 0 ==> method::capitalized(word).len() == 0,
        vstd::utf8::is_ascii_chars(word) ==> method::capitalized(word).len() == word.len() && forall|k: int|
            0 <= k < word.len() ==> #[trigger] method::capitalized(word)[k] == if k == 0 {
                text::upper(word[k])
            } else {
                text::lower(word[k])
            },
{
    lemma_word_end(word, 0, word.len() as int);
    assert(word.subrange(0, word.len() as int) =~= word);
    let p = word + seq!['_'];
    let all = p + rest;
    assert(all[word.len() as int] == '_');
    assert forall|k: int| 0 <= k < word.len() implies #[trigger] all[k] != '_' by {
        assert(all[k] == word[k]);
    }
    lemma_word_end(all, 0, word.len() as int);
    assert(all.subrange(0, word.len() as int) =~= word);
    lemma_words_shifted(p, rest, 0);
    if vstd::utf8::is_ascii_chars(word) {
        if word.len() > 0 {
            assert(word[0] <= '\u{7f}');
            let tail = word.drop_first();
            assert forall|k: int| 0 <= k < tail.len() implies '\0' <= #[trigger] tail[k]
                <= '\u{7f}' by {
                assert(tail[k] == word[k + 1]);
            }
            assert(vstd::utf8::is_ascii_chars(tail));
            let made = method::capitalized(word);
            assert(made =~= seq![text::upper(word[0])] + text::lowered(tail));
            assert forall|k: int| 0 <= k < word.len() implies #[trigger] made[k] == if k == 0 {
                text::upper(word[k])
            } else {
                text::lower(word[k])
            } by {
                if k > 0 {
                    assert(made[k] == text::lowered(tail)[k - 1]);
                    assert(tail[k - 1] == word[k]);
                }
            }
        }
    }
}

/// The models of attributes, parameters and methods show what these hold, part by part.
pub proof fn law_models_of_services_show_their_parts(
    a: ServiceAttrs,
    m: MethodAttrs,
    p: ParamAttrs,
    param: ParamInfo,
    info: MethodInfo,
)
    ensures
        a@.crate_path == a.crate_path@,
        a@.interface == text::optional(a.interface),
        a@.vendor == text::optional(a.vendor),
        a@.product == text::optional(a.product),
        a@.version == text::optional(a.version),
        a@.url == text::optional(a.url),
        a@.custom_types.len() == a.custom_types@.len(),
        forall|k: int|
            0 <= k < a@.custom_types.len() ==> #[trigger] a@.custom_types[k] == a.custom_types@[k]@,
        m@.interface == text::optional(m.interface),
        m@.rename == text::optional(m.rename),
        m@.more == m.more,
        m@.return_fds == m.return_fds,
        p@.rename == text::optional(p.rename),
        p@.is_connection == p.is_connection,
        p@.is_fds == p.is_fds,
        param@.name == param.name@,
        param@.ty == param.ty@,
        param@.serialized_name == text::optional(param.serialized_name),
        param@.is_connection == param.is_connection,
        param@.is_fds == param.is_fds,
        param@.is_more == param.is_more,
        info@.name == info.name@,
        info@.varlink_name == info.varlink_name@,
        info@.interface == text::optional(info.interface),
        info@.params.len() == info.params@.len(),
        forall|k: int|
            0 <= k < info@.params.len() ==> #[trigger] info@.params[k] == info.params@[k]@,
        info@.return_type == text::optional(info.return_type),
        info@.returns_result == info.returns_result,
        info@.error_type == text::optional(info.error_type),
        info@.body == info.body@,
        info@.is_streaming == info.is_streaming,
        info@.return_fds == info.return_fds,
{
}

/// The model of an argument shows what it holds, part by part.
pub proof fn law_models_of_arguments_show_their_parts(arg: FnArg)
    ensures
        arg is Receiver <==> arg@ is Receiver,
        arg matches FnArg::Typed(typed) ==> {
            &&& arg@->ident == text::optional(typed.ident)
            &&& arg@->ty == typed.ty@
            &&& arg@->attrs.len() == typed.attrs@.len()
            &&& forall|k: int|
                0 <= k < typed.attrs@.len() ==> #[trigger] arg@->attrs[k] == typed.attrs@[k]@
        },
{
}

/// An argument by itself, its attributes apart, is a parameter of its name and type that comes over the
/// wire under that name; one without a name, and `self`, are none.
pub proof fn law_plain_arguments_come_over_the_wire(arg: FnArgView)
    ensures
        types::param_of(arg) is Some <==> (arg matches FnArgView::Typed { ident, .. } && ident is Some),
        types::param_of(arg) matches Some(p) ==> {
            &&& Some(p.name) == arg->ident
            &&& p.ty == arg->ty
            &&& p.serialized_name is None
            &&& !p.is_connection && !p.is_fds && !p.is_more
            &&& p.comes_over_wire()
            &&& p.wire() == p.name
        },
{
}

/// A parameter has the name on the wire that `rename` gives it, or else its own, and it comes over the
/// wire unless it receives the connection, the file descriptors or whether more is wanted.
pub proof fn law_renamed_parameters_have_that_name_on_the_wire(p: ParamInfoView)
    ensures
        p.serialized_name matches Some(name) ==> p.wire() == name,
        p.serialized_name is None ==> p.wire() == p.name,
        p.is_connection || p.is_fds || p.is_more <==> !p.comes_over_wire(),
{
}

} // verus!
