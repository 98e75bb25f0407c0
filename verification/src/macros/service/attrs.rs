//! The attributes of the `service` macro.

use vstd::prelude::*;

use crate::macros::meta;
use crate::macros::nested;
use crate::macros::nested::{read_entries, Entry, EntryView, Nested, NestedView};
use crate::macros::tokens;
use crate::macros::tokens::print_stream;
use crate::text;

verus! {

/// What the brackets of `#[service(..)]` say.
#[derive(Debug)]
pub struct ServiceAttrs {
    /// The tokens of the path to the library.
    pub crate_path: String,
    /// The interface of the methods that name none.
    pub interface: Option<String>,
    /// The tokens of the custom types.
    pub custom_types: Vec<String>,
    /// The vendor of the service.
    pub vendor: Option<String>,
    /// The product that the service is.
    pub product: Option<String>,
    /// The version of the service.
    pub version: Option<String>,
    /// Where to read about the service.
    pub url: Option<String>,
}

/// The model of [`ServiceAttrs`].
pub struct ServiceAttrsView {
    /// The tokens of the path to the library.
    pub crate_path: Seq<char>,
    /// The interface of the methods that name none.
    pub interface: Option<Seq<char>>,
    /// The tokens of the custom types.
    pub custom_types: Seq<Seq<char>>,
    /// The vendor of the service.
    pub vendor: Option<Seq<char>>,
    /// The product that the service is.
    pub product: Option<Seq<char>>,
    /// The version of the service.
    pub version: Option<Seq<char>>,
    /// Where to read about the service.
    pub url: Option<Seq<char>>,
}

impl View for ServiceAttrs {
    type V = ServiceAttrsView;

    open spec fn view(&self) -> ServiceAttrsView {
        ServiceAttrsView {
            crate_path: self.crate_path@,
            interface: text::optional(self.interface),
            custom_types: text::texts(self.custom_types@),
            vendor: text::optional(self.vendor),
            product: text::optional(self.product),
            version: text::optional(self.version),
            url: text::optional(self.url),
        }
    }
}

/// The tokens of the types in a list, as syn prints them, or what is wrong with it.
pub uninterp spec fn types_of(source: Seq<char>) -> Result<Seq<Seq<char>>, Seq<char>>;

/// Calls [`syn::punctuated::Punctuated::parse_terminated`] for types with commas between them, and
/// prints each, with proc_macro2's own implementation of tokens, which
/// [`proc_macro2::fallback::force`] puts in use: with it the result depends on the text alone.
#[verifier::external_body]
fn parse_types(source: &str) -> (r: Result<Vec<String>, String>)
    ensures
        match r {
            Ok(types) => types_of(source@) == Ok::<Seq<Seq<char>>, Seq<char>>(text::texts(types@)),
            Err(message) => types_of(source@) == Err::<Seq<Seq<char>>, Seq<char>>(message@),
        },
{
    proc_macro2::fallback::force();
    let list = syn::punctuated::Punctuated::<syn::Type, syn::token::Comma>::parse_terminated;
    let types = syn::parse::Parser::parse_str(list, source).map_err(|e| e.to_string())?;
    Ok(types.iter().map(|t| quote::ToTokens::to_token_stream(t).to_string()).collect())
}

/// The attributes with what one more entry says, or what is wrong with it. Of two entries with one
/// key, the later counts.
pub open spec fn with_entry(a: ServiceAttrsView, entry: EntryView) -> Result<
    ServiceAttrsView,
    Seq<char>,
> {
    if entry.key == Some("types"@) {
        match entry.list {
            Err(message) => Err(message),
            Ok(list) => match types_of(list) {
                Err(message) => Err(message),
                Ok(custom_types) => Ok(ServiceAttrsView { custom_types, ..a }),
            },
        }
    } else if entry.key == Some("crate"@) {
        match entry.text {
            Err(message) => Err(message),
            Ok(path) => match tokens::stream_text_of(path) {
                Err(message) => Err(message),
                Ok(crate_path) => Ok(ServiceAttrsView { crate_path, ..a }),
            },
        }
    } else if entry.key == Some("interface"@) {
        match entry.text {
            Err(message) => Err(message),
            Ok(value) => Ok(ServiceAttrsView { interface: Some(value), ..a }),
        }
    } else if entry.key == Some("vendor"@) {
        match entry.text {
            Err(message) => Err(message),
            Ok(value) => Ok(ServiceAttrsView { vendor: Some(value), ..a }),
        }
    } else if entry.key == Some("product"@) {
        match entry.text {
            Err(message) => Err(message),
            Ok(value) => Ok(ServiceAttrsView { product: Some(value), ..a }),
        }
    } else if entry.key == Some("version"@) {
        match entry.text {
            Err(message) => Err(message),
            Ok(value) => Ok(ServiceAttrsView { version: Some(value), ..a }),
        }
    } else if entry.key == Some("url"@) {
        match entry.text {
            Err(message) => Err(message),
            Ok(value) => Ok(ServiceAttrsView { url: Some(value), ..a }),
        }
    } else {
        Err("unsupported service attribute"@)
    }
}

/// The attributes with what the entries from `i` on say, or what is first wrong with them.
pub open spec fn with_entries(a: ServiceAttrsView, entries: Seq<EntryView>, i: int) -> Result<
    ServiceAttrsView,
    Seq<char>,
>
    decreases entries.len() - i,
{
    if 0 <= i < entries.len() {
        match with_entry(a, entries[i]) {
            Err(message) => Err(message),
            Ok(a) => with_entries(a, entries, i + 1),
        }
    } else {
        Ok(a)
    }
}

/// What brackets without anything in them say.
pub open spec fn no_attrs() -> ServiceAttrsView {
    ServiceAttrsView {
        crate_path: "::zlink"@,
        interface: None,
        custom_types: seq![],
        vendor: None,
        product: None,
        version: None,
        url: None,
    }
}

/// What is said of brackets with something wrong in them.
pub open spec fn attrs_error(message: Seq<char>) -> Seq<char> {
    "failed to parse service attributes: "@ + message
        + ". Expected: #[service] or #[service(crate = \"path\")]"@
}

/// What entries in the brackets of `#[service(..)]` say, or what is wrong with them.
pub open spec fn attrs_of(nested: NestedView) -> Result<ServiceAttrsView, Seq<char>> {
    match with_entries(no_attrs(), nested.entries, 0) {
        Err(message) => Err(attrs_error(message)),
        Ok(a) => match nested.error {
            Some(message) => Err(attrs_error(message)),
            None => Ok(a),
        },
    }
}

/// What a text in the brackets of `#[service(..)]` says, or what is wrong with it.
pub open spec fn attrs_in(source: Seq<char>) -> Result<ServiceAttrsView, Seq<char>> {
    if source.len() == 0 {
        Ok(no_attrs())
    } else {
        attrs_of(nested::nested_of(tokens::tokens_of(source)))
    }
}

/// What is said of brackets with something wrong in them.
fn explain(message: &str) -> (r: String)
    ensures
        r@ == attrs_error(message@),
{
    let mut said = "failed to parse service attributes: ".to_string();
    said.append(message);
    said.append(". Expected: #[service] or #[service(crate = \"path\")]");
    said
}

/// What a result of attributes says.
pub open spec fn result_view(r: Result<ServiceAttrs, String>) -> Result<
    ServiceAttrsView,
    Seq<char>,
> {
    match r {
        Ok(a) => Ok(a@),
        Err(message) => Err(message@),
    }
}

impl ServiceAttrs {
    /// What brackets without anything in them say.
    fn none() -> (r: ServiceAttrs)
        ensures
            r@ == no_attrs(),
    {
        let r = ServiceAttrs {
            crate_path: "::zlink".to_string(),
            interface: None,
            custom_types: Vec::new(),
            vendor: None,
            product: None,
            version: None,
            url: None,
        };
        assert(r@.custom_types =~= no_attrs().custom_types);
        r
    }

    /// Adds what one more entry says.
    pub fn add_entry(&mut self, entry: Entry) -> (r: Result<(), String>)
        ensures
            match r {
                Ok(_) => with_entry(old(self)@, entry@) == Ok::<ServiceAttrsView, Seq<char>>(
                    final(self)@,
                ),
                Err(message) => with_entry(old(self)@, entry@) == Err::<
                    ServiceAttrsView,
                    Seq<char>,
                >(message@),
            },
    {
        if meta::is_ident(&entry.key, "types") {
            let list = entry.list?;
            self.custom_types = parse_types(list.as_str())?;
        } else if meta::is_ident(&entry.key, "crate") {
            let path = entry.text?;
            self.crate_path = print_stream(path.as_str())?;
        } else if meta::is_ident(&entry.key, "interface") {
            self.interface = Some(entry.text?);
        } else if meta::is_ident(&entry.key, "vendor") {
            self.vendor = Some(entry.text?);
        } else if meta::is_ident(&entry.key, "product") {
            self.product = Some(entry.text?);
        } else if meta::is_ident(&entry.key, "version") {
            self.version = Some(entry.text?);
        } else if meta::is_ident(&entry.key, "url") {
            self.url = Some(entry.text?);
        } else {
            return Err("unsupported service attribute".to_string());
        }
        Ok(())
    }

    /// What entries in the brackets of `#[service(..)]` say.
    pub fn from_nested(nested: Nested) -> (r: Result<ServiceAttrs, String>)
        ensures
            result_view(r) == attrs_of(nested@),
    {
        let mut result = ServiceAttrs::none();
        let ghost all = nested@.entries;
        let error = nested.error;
        let entries = nested.entries;
        for entry in it: entries
            invariant
                it.seq() == entries@,
                all == nested@.entries,
                all == nested::entries_view(entries@),
                with_entries(no_attrs(), all, 0) == with_entries(result@, all, it.index() as int),
        {
            assert(all[it.index() as int] == entry@);
            match result.add_entry(entry) {
                Ok(_) => {},
                Err(message) => {
                    return Err(explain(message.as_str()));
                },
            }
        }
        match error {
            Some(message) => Err(explain(message.as_str())),
            None => Ok(result),
        }
    }

    /// What the tokens in the brackets of `#[service(..)]` say.
    pub fn parse(attr: &str) -> (r: Result<ServiceAttrs, String>)
        ensures
            result_view(r) == attrs_in(attr@),
    {
        if attr.unicode_len() == 0 {
            Ok(ServiceAttrs::none())
        } else {
            ServiceAttrs::from_nested(read_entries(attr))
        }
    }
}

} // verus!
