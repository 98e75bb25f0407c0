//! What the `service` macro knows of methods.

use vstd::prelude::*;
use vstd::utf8::*;

use super::types;
use super::types::{
    FnArg, FnArgView, GenericArg, GenericArgView, ParamInfo, ParamInfoView, Type, TypeView,
};
use crate::introspect::str_eq;
use crate::macros::meta;
use crate::macros::meta::{
    Attribute, AttributeArgs, AttributeArgsView, AttributeView, MetaForm, MetaFormView, MetaItem,
    MetaItemView, MetaValue, MetaValueView,
};
use crate::text;
use crate::text::{clone_optional, to_lowered, to_upper};

verus! {

/// What the `zlink` attributes of a method say.
#[derive(Debug)]
pub struct MethodAttrs {
    /// The interface of the method.
    pub interface: Option<String>,
    /// The name of the method.
    pub rename: Option<String>,
    /// Whether the method replies with a stream.
    pub more: bool,
    /// Whether the method returns file descriptors.
    pub return_fds: bool,
}

/// The model of [`MethodAttrs`].
pub struct MethodAttrsView {
    /// The interface of the method.
    pub interface: Option<Seq<char>>,
    /// The name of the method.
    pub rename: Option<Seq<char>>,
    /// Whether the method replies with a stream.
    pub more: bool,
    /// Whether the method returns file descriptors.
    pub return_fds: bool,
}

impl View for MethodAttrs {
    type V = MethodAttrsView;

    open spec fn view(&self) -> MethodAttrsView {
        MethodAttrsView {
            interface: text::optional(self.interface),
            rename: text::optional(self.rename),
            more: self.more,
            return_fds: self.return_fds,
        }
    }
}

/// What the items from `i` on add, or what is first wrong with them. Only `interface` and `rename`
/// may be given a value, both a string literal, of two the later counts; and only `more` and
/// `return_fds` may stand alone.
pub open spec fn with_items(a: MethodAttrsView, items: Seq<MetaItemView>, i: int) -> Result<
    MethodAttrsView,
    Seq<char>,
>
    decreases items.len() - i,
{
    if 0 <= i < items.len() {
        match items[i].form {
            MetaFormView::NameValue(value) => if items[i].path == Some("interface"@) {
                match value {
                    MetaValueView::Text(name) => with_items(
                        MethodAttrsView { interface: Some(name), ..a },
                        items,
                        i + 1,
                    ),
                    _ => Err("interface value must be a string literal"@),
                }
            } else if items[i].path == Some("rename"@) {
                match value {
                    MetaValueView::Text(name) => with_items(
                        MethodAttrsView { rename: Some(name), ..a },
                        items,
                        i + 1,
                    ),
                    _ => Err("rename value must be a string literal"@),
                }
            } else {
                Err("unknown zlink attribute"@)
            },
            MetaFormView::Path => if items[i].path == Some("more"@) {
                with_items(MethodAttrsView { more: true, ..a }, items, i + 1)
            } else if items[i].path == Some("return_fds"@) {
                with_items(MethodAttrsView { return_fds: true, ..a }, items, i + 1)
            } else {
                Err("unknown zlink attribute"@)
            },
            MetaFormView::List => Err("unknown zlink attribute"@),
        }
    } else {
        Ok(a)
    }
}

/// What the `zlink` attributes from `i` on add, or what is first wrong with them.
pub open spec fn with_attrs(a: MethodAttrsView, attrs: Seq<AttributeView>, i: int) -> Result<
    MethodAttrsView,
    Seq<char>,
>
    decreases attrs.len() - i,
{
    if 0 <= i < attrs.len() {
        if attrs[i].path != Some("zlink"@) {
            with_attrs(a, attrs, i + 1)
        } else {
            match attrs[i].args {
                AttributeArgsView::List(tokens) => if tokens.len() == 0 {
                    with_attrs(a, attrs, i + 1)
                } else {
                    match meta::items_of(tokens) {
                        Err(message) => Err(message),
                        Ok(items) => match with_items(a, items, 0) {
                            Err(message) => Err(message),
                            Ok(a) => with_attrs(a, attrs, i + 1),
                        },
                    }
                },
                _ => with_attrs(a, attrs, i + 1),
            }
        }
    } else {
        Ok(a)
    }
}

/// What the `zlink` attributes of a method say.
pub open spec fn method_attrs_of(attrs: Seq<AttributeView>) -> Result<MethodAttrsView, Seq<char>> {
    with_attrs(
        MethodAttrsView { interface: None, rename: None, more: false, return_fds: false },
        attrs,
        0,
    )
}

/// The attributes from `i` on that are no `zlink` attributes.
pub open spec fn other_attrs(attrs: Seq<Attribute>, i: int) -> Seq<Attribute>
    decreases attrs.len() - i,
{
    if 0 <= i < attrs.len() {
        if attrs[i]@.path == Some("zlink"@) {
            other_attrs(attrs, i + 1)
        } else {
            seq![attrs[i]] + other_attrs(attrs, i + 1)
        }
    } else {
        seq![]
    }
}

impl MethodAttrs {
    /// Adds what items say.
    pub fn add_items(&mut self, items: Vec<MetaItem>) -> (r: Result<(), String>)
        ensures
            match r {
                Ok(_) => with_items(old(self)@, meta::items_view(items@), 0) == Ok::<
                    MethodAttrsView,
                    Seq<char>,
                >(final(self)@),
                Err(message) => with_items(old(self)@, meta::items_view(items@), 0) == Err::<
                    MethodAttrsView,
                    Seq<char>,
                >(message@),
            },
    {
        let ghost all = meta::items_view(items@);
        let ghost start = self@;
        for item in it: items
            invariant
                it.seq() == items@,
                all == meta::items_view(items@),
                start == old(self)@,
                with_items(start, all, 0) == with_items(self@, all, it.index() as int),
        {
            assert(all[it.index() as int] == item@);
            match item.form {
                MetaForm::NameValue(value) => {
                    if meta::is_ident(&item.path, "interface") {
                        match value {
                            MetaValue::Text(name) => {
                                self.interface = Some(name);
                            },
                            _ => {
                                return Err("interface value must be a string literal".to_string());
                            },
                        }
                    } else if meta::is_ident(&item.path, "rename") {
                        match value {
                            MetaValue::Text(name) => {
                                self.rename = Some(name);
                            },
                            _ => {
                                return Err("rename value must be a string literal".to_string());
                            },
                        }
                    } else {
                        return Err("unknown zlink attribute".to_string());
                    }
                },
                MetaForm::Path => {
                    if meta::is_ident(&item.path, "more") {
                        self.more = true;
                    } else if meta::is_ident(&item.path, "return_fds") {
                        self.return_fds = true;
                    } else {
                        return Err("unknown zlink attribute".to_string());
                    }
                },
                MetaForm::List => {
                    return Err("unknown zlink attribute".to_string());
                },
            }
        }
        Ok(())
    }

    /// Takes the `zlink` attributes off a method. Where something is wrong with them, all stay.
    pub fn extract(attrs: &mut Vec<Attribute>) -> (r: Result<MethodAttrs, String>)
        ensures
            match r {
                Ok(a) => method_attrs_of(meta::attributes_view(old(attrs)@)) == Ok::<
                    MethodAttrsView,
                    Seq<char>,
                >(a@) && final(attrs)@ == other_attrs(old(attrs)@, 0),
                Err(message) => method_attrs_of(meta::attributes_view(old(attrs)@)) == Err::<
                    MethodAttrsView,
                    Seq<char>,
                >(message@) && final(attrs)@ == old(attrs)@,
            },
    {
        let ghost before = attrs@;
        let ghost all = meta::attributes_view(before);
        let mut result = MethodAttrs {
            interface: None,
            rename: None,
            more: false,
            return_fds: false,
        };
        let n: usize = attrs.len();
        let mut i: usize = 0;
        while i < n
            invariant
                i <= n == before.len(),
                attrs@ == before,
                before == old(attrs)@,
                all == meta::attributes_view(before),
                method_attrs_of(all) == with_attrs(result@, all, i as int),
            decreases n - i,
        {
            assert(all[i as int] == attrs@[i as int]@);
            if attrs[i].is_ident("zlink") {
                if let AttributeArgs::List(tokens) = &attrs[i].args {
                    if tokens.as_str().unicode_len() > 0 {
                        let items = match meta::parse_items(tokens.as_str()) {
                            Err(message) => {
                                return Err(message);
                            },
                            Ok(items) => items,
                        };
                        match result.add_items(items) {
                            Err(message) => {
                                return Err(message);
                            },
                            Ok(_) => {},
                        }
                    }
                }
            }
            i += 1;
        }
        assert(before.take(i as int) + other_attrs(before, i as int) =~= before);
        while i > 0
            invariant
                i <= n == before.len(),
                attrs@ == before.take(i as int) + other_attrs(before, i as int),
            decreases i,
        {
            i -= 1;
            assert(attrs@[i as int] == before[i as int]);
            if attrs[i].is_ident("zlink") {
                attrs.remove(i);
            }
            assert(attrs@ =~= before.take(i as int) + other_attrs(before, i as int));
        }
        assert(attrs@ =~= other_attrs(before, 0));
        Ok(result)
    }
}

/// What the `zlink` attributes of a parameter say.
#[derive(Debug)]
pub struct ParamAttrs {
    /// The name of the parameter on the wire.
    pub rename: Option<String>,
    /// Whether it receives the connection.
    pub is_connection: bool,
    /// Whether it receives the file descriptors.
    pub is_fds: bool,
}

/// The model of [`ParamAttrs`].
pub struct ParamAttrsView {
    /// The name of the parameter on the wire.
    pub rename: Option<Seq<char>>,
    /// Whether it receives the connection.
    pub is_connection: bool,
    /// Whether it receives the file descriptors.
    pub is_fds: bool,
}

impl View for ParamAttrs {
    type V = ParamAttrsView;

    open spec fn view(&self) -> ParamAttrsView {
        ParamAttrsView {
            rename: text::optional(self.rename),
            is_connection: self.is_connection,
            is_fds: self.is_fds,
        }
    }
}

/// What one more item adds: a `rename` that is given a string literal, `connection` or `fds`. Any
/// other adds nothing.
pub open spec fn with_param_item(a: ParamAttrsView, item: MetaItemView) -> ParamAttrsView {
    match item.form {
        MetaFormView::NameValue(MetaValueView::Text(name)) => if item.path == Some("rename"@) {
            ParamAttrsView { rename: Some(name), ..a }
        } else {
            a
        },
        MetaFormView::Path => if item.path == Some("connection"@) {
            ParamAttrsView { is_connection: true, ..a }
        } else if item.path == Some("fds"@) {
            ParamAttrsView { is_fds: true, ..a }
        } else {
            a
        },
        _ => a,
    }
}

/// What the items from `i` on add.
pub open spec fn with_param_items(a: ParamAttrsView, items: Seq<MetaItemView>, i: int) -> ParamAttrsView
    decreases items.len() - i,
{
    if 0 <= i < items.len() {
        with_param_items(with_param_item(a, items[i]), items, i + 1)
    } else {
        a
    }
}

/// What the `zlink` attributes from `i` on add. One that makes no sense adds nothing.
pub open spec fn with_param_attrs(a: ParamAttrsView, attrs: Seq<AttributeView>, i: int) -> ParamAttrsView
    decreases attrs.len() - i,
{
    if 0 <= i < attrs.len() {
        let next = match attrs[i].args {
            AttributeArgsView::List(tokens) => match meta::items_of(tokens) {
                Ok(items) => if attrs[i].path == Some("zlink"@) {
                    with_param_items(a, items, 0)
                } else {
                    a
                },
                Err(_) => a,
            },
            _ => a,
        };
        with_param_attrs(next, attrs, i + 1)
    } else {
        a
    }
}

/// What the `zlink` attributes of a parameter say.
pub open spec fn param_attrs_of(attrs: Seq<AttributeView>) -> ParamAttrsView {
    with_param_attrs(
        ParamAttrsView { rename: None, is_connection: false, is_fds: false },
        attrs,
        0,
    )
}

impl ParamAttrs {
    /// Adds what items say.
    pub fn add_items(&mut self, items: Vec<MetaItem>)
        ensures
            final(self)@ == with_param_items(old(self)@, meta::items_view(items@), 0),
    {
        let ghost all = meta::items_view(items@);
        let ghost start = self@;
        for item in it: items
            invariant
                it.seq() == items@,
                all == meta::items_view(items@),
                with_param_items(start, all, 0) == with_param_items(
                    self@,
                    all,
                    it.index() as int,
                ),
        {
            assert(all[it.index() as int] == item@);
            match item.form {
                MetaForm::NameValue(MetaValue::Text(name)) => {
                    if meta::is_ident(&item.path, "rename") {
                        self.rename = Some(name);
                    }
                },
                MetaForm::Path => {
                    if meta::is_ident(&item.path, "connection") {
                        self.is_connection = true;
                    } else if meta::is_ident(&item.path, "fds") {
                        self.is_fds = true;
                    }
                },
                _ => {},
            }
        }
    }
}

/// What the `zlink` attributes of a parameter say.
pub fn extract_param_attrs(attrs: &[Attribute]) -> (r: ParamAttrs)
    ensures
        r@ == param_attrs_of(meta::attributes_view(attrs@)),
{
    let ghost all = meta::attributes_view(attrs@);
    let mut result = ParamAttrs { rename: None, is_connection: false, is_fds: false };
    let mut i: usize = 0;
    while i < attrs.len()
        invariant
            i <= attrs@.len(),
            all == meta::attributes_view(attrs@),
            param_attrs_of(all) == with_param_attrs(result@, all, i as int),
        decreases attrs@.len() - i,
    {
        assert(all[i as int] == attrs@[i as int]@);
        if attrs[i].is_ident("zlink") {
            if let AttributeArgs::List(tokens) = &attrs[i].args {
                if let Ok(items) = meta::parse_items(tokens.as_str()) {
                    result.add_items(items);
                }
            }
        }
        i += 1;
    }
    result
}

/// A character in upper case: an ASCII character as such, any other as Unicode says.
pub open spec fn char_upper(c: char) -> Seq<char> {
    if c <= '\u{7f}' {
        seq![text::upper(c)]
    } else {
        unicode_char_upper(c)
    }
}

/// What Unicode says a character is in upper case.
pub uninterp spec fn unicode_char_upper(c: char) -> Seq<char>;

/// Calls [`char::to_uppercase`]: the Unicode mapping, which of ASCII changes the letters `a` to `z`
/// alone.
#[verifier::external_body]
fn char_to_uppercase(c: char) -> (r: String)
    ensures
        c <= '\u{7f}' ==> r@ == seq![text::upper(c)],
        c > '\u{7f}' ==> r@ == unicode_char_upper(c),
{
    c.to_uppercase().to_string()
}

/// A text in lower case: an ASCII text as such, any other as Unicode says.
pub open spec fn text_lower(s: Seq<char>) -> Seq<char> {
    if is_ascii_chars(s) {
        text::lowered(s)
    } else {
        unicode_lower(s)
    }
}

/// What Unicode says a text is in lower case.
pub uninterp spec fn unicode_lower(s: Seq<char>) -> Seq<char>;

/// Calls [`str::to_lowercase`]: the Unicode mapping, which of an ASCII text changes the letters `A`
/// to `Z` alone.
#[verifier::external_body]
fn str_to_lowercase(s: &str) -> (r: String)
    ensures
        is_ascii_chars(s@) ==> r@ == text::lowered(s@),
        !is_ascii_chars(s@) ==> r@ == unicode_lower(s@),
{
    s.to_lowercase()
}

/// A word with its first character in upper case and the rest in lower case.
pub open spec fn capitalized(word: Seq<char>) -> Seq<char> {
    if word.len() == 0 {
        seq![]
    } else {
        char_upper(word[0]) + text_lower(word.drop_first())
    }
}

/// The first position from `i` on that holds an underscore, or the end.
pub open spec fn word_end(s: Seq<char>, i: int) -> int
    decreases s.len() - i,
{
    if 0 <= i < s.len() && s[i] != '_' {
        word_end(s, i + 1)
    } else {
        i
    }
}

/// The words from `i` on, which underscores part, capitalized and put together.
pub open spec fn pascal_words(s: Seq<char>, i: int) -> Seq<char>
    decreases s.len() - i,
{
    if 0 <= i <= s.len() {
        let e = word_end(s, i);
        if i <= e < s.len() {
            capitalized(s.subrange(i, e)) + pascal_words(s, e + 1)
        } else {
            capitalized(s.subrange(i, s.len() as int))
        }
    } else {
        seq![]
    }
}

/// A word with its first character in upper case and the rest in lower case.
fn capitalize(word: &str) -> (r: String)
    ensures
        r@ == capitalized(word@),
{
    let n: usize = word.unicode_len();
    if n == 0 {
        let r = String::new();
        assert(r@ =~= seq![]);
        return r;
    }
    let rest = word.substring_char(1, n);
    assert(rest@ =~= word@.drop_first());
    let mut r = char_to_uppercase(word.get_char(0));
    r.append(str_to_lowercase(rest).as_str());
    r
}

proof fn lemma_word_end(s: Seq<char>, b: int, i: int)
    requires
        0 <= b <= i <= s.len(),
        forall|k: int| b <= k < i ==> s[k] != '_',
    ensures
        word_end(s, b) == word_end(s, i),
    decreases i - b,
{
    if b < i {
        lemma_word_end(s, b + 1, i);
    }
}

/// The Pascal-case form of a snake-case name.
pub fn snake_case_to_pascal_case(input: &str) -> (r: String)
    ensures
        r@ == pascal_words(input@, 0),
{
    let mut out = String::new();
    let mut word = String::new();
    let ghost s = input@;
    let ghost mut b: int = 0;
    assert(out@ + pascal_words(s, 0) =~= pascal_words(s, 0));
    assert(word@ =~= s.subrange(0, 0));
    for c in it: input.chars()
        invariant
            it.seq() == s,
            s == input@,
            0 <= b <= it.index(),
            word@ == s.subrange(b, it.index() as int),
            forall|k: int| b <= k < it.index() ==> s[k] != '_',
            out@ + pascal_words(s, b) == pascal_words(s, 0),
    {
        let ghost i = it.index() as int;
        if c == '_' {
            let ghost before = out@;
            out.append(capitalize(word.as_str()).as_str());
            word = String::new();
            proof {
                lemma_word_end(s, b, i);
                assert(word_end(s, b) == i);
                assert(pascal_words(s, b) == capitalized(s.subrange(b, i)) + pascal_words(
                    s,
                    i + 1,
                ));
                assert(before + (capitalized(s.subrange(b, i)) + pascal_words(s, i + 1))
                    =~= out@ + pascal_words(s, i + 1));
                b = i + 1;
            }
            assert(word@ =~= s.subrange(b, i + 1));
        } else {
            word.push(c);
            assert(word@ =~= s.subrange(b, i + 1));
        }
    }
    proof {
        lemma_word_end(s, b, s.len() as int);
    }
    out.append(capitalize(word.as_str()).as_str());
    out
}

/// The types of `Result<T, E>`: the first, unless it is `()`, and the second.
pub open spec fn result_types_of(ty: TypeView) -> Option<(Option<Seq<char>>, Seq<char>)> {
    match ty.last_segment {
        Some(segment) => if segment.ident != "Result"@ {
            None
        } else {
            match segment.args {
                None => None,
                Some(args) => if args.len() < 2 {
                    None
                } else {
                    match (args[0], args[1]) {
                        (
                            GenericArgView::Type { text: ok, unit },
                            GenericArgView::Type { text: err, .. },
                        ) => Some(
                            (
                                if unit {
                                    None
                                } else {
                                    Some(ok)
                                },
                                err,
                            ),
                        ),
                        _ => None,
                    }
                },
            }
        },
        None => None,
    }
}

/// The types of `Result<T, E>`, where the type is one.
pub fn extract_result_types(ty: &Type) -> (r: Option<(Option<String>, String)>)
    ensures
        match r {
            Some((ok, err)) => result_types_of(ty@) == Some((text::optional(ok), err@)),
            None => result_types_of(ty@) is None,
        },
{
    let segment = match &ty.last_segment {
        None => {
            return None;
        },
        Some(segment) => segment,
    };
    if !str_eq(segment.ident.as_str(), "Result") {
        return None;
    }
    let args = match &segment.args {
        None => {
            return None;
        },
        Some(args) => args,
    };
    if args.len() < 2 {
        return None;
    }
    assert(ty@.last_segment->0.args->0[0] == args@[0]@);
    assert(ty@.last_segment->0.args->0[1] == args@[1]@);
    match (&args[0], &args[1]) {
        (GenericArg::Type { text: ok, unit }, GenericArg::Type { text: err, .. }) => {
            let ok = if *unit {
                None
            } else {
                Some(ok.clone())
            };
            Some((ok, err.clone()))
        },
        _ => None,
    }
}

/// A method of an impl block, as far as the macro looks at it.
#[derive(Debug)]
pub struct ImplMethod {
    /// The name of the method.
    pub name: String,
    /// Its attributes.
    pub attrs: Vec<Attribute>,
    /// Its arguments, `self` among them.
    pub inputs: Vec<FnArg>,
    /// What it returns, where it says so.
    pub output: Option<Type>,
    /// The tokens of its body.
    pub body: String,
}

/// What the macro knows of a method.
#[derive(Debug)]
pub struct MethodInfo {
    /// The name of the method.
    pub name: String,
    /// The name that the method has on the wire.
    pub varlink_name: String,
    /// The interface that the method belongs to.
    pub interface: Option<String>,
    /// The parameters of the method.
    pub params: Vec<ParamInfo>,
    /// The tokens of the type that is sent in reply.
    pub return_type: Option<String>,
    /// Whether the method returns a `Result`.
    pub returns_result: bool,
    /// The tokens of the type of its errors.
    pub error_type: Option<String>,
    /// The tokens of its body.
    pub body: String,
    /// Whether the method replies with a stream.
    pub is_streaming: bool,
    /// Whether the method returns file descriptors.
    pub return_fds: bool,
}

/// The model of a [`MethodInfo`].
pub struct MethodInfoView {
    /// The name of the method.
    pub name: Seq<char>,
    /// The name that the method has on the wire.
    pub varlink_name: Seq<char>,
    /// The interface that the method belongs to.
    pub interface: Option<Seq<char>>,
    /// The parameters of the method.
    pub params: Seq<ParamInfoView>,
    /// The tokens of the type that is sent in reply.
    pub return_type: Option<Seq<char>>,
    /// Whether the method returns a `Result`.
    pub returns_result: bool,
    /// The tokens of the type of its errors.
    pub error_type: Option<Seq<char>>,
    /// The tokens of its body.
    pub body: Seq<char>,
    /// Whether the method replies with a stream.
    pub is_streaming: bool,
    /// Whether the method returns file descriptors.
    pub return_fds: bool,
}

/// What a list of parameters says.
pub open spec fn params_view(params: Seq<ParamInfo>) -> Seq<ParamInfoView> {
    Seq::new(params.len(), |i: int| params[i]@)
}

/// What a list of arguments says.
pub open spec fn inputs_view(inputs: Seq<FnArg>) -> Seq<FnArgView> {
    Seq::new(inputs.len(), |i: int| inputs[i]@)
}

impl View for MethodInfo {
    type V = MethodInfoView;

    open spec fn view(&self) -> MethodInfoView {
        MethodInfoView {
            name: self.name@,
            varlink_name: self.varlink_name@,
            interface: text::optional(self.interface),
            params: params_view(self.params@),
            return_type: text::optional(self.return_type),
            returns_result: self.returns_result,
            error_type: text::optional(self.error_type),
            body: self.body@,
            is_streaming: self.is_streaming,
            return_fds: self.return_fds,
        }
    }
}

/// What a list of methods says.
pub open spec fn methods_view(methods: Seq<MethodInfo>) -> Seq<MethodInfoView> {
    Seq::new(methods.len(), |i: int| methods[i]@)
}

/// The parameter that an argument is, with what its attributes say. Of a method that replies with a
/// stream, `more` receives whether the caller wants more than one reply.
pub open spec fn param_with_attrs(arg: FnArgView, streaming: bool) -> Option<ParamInfoView> {
    match (types::param_of(arg), arg) {
        (Some(p), FnArgView::Typed { attrs, .. }) => Some(
            ParamInfoView {
                serialized_name: param_attrs_of(attrs).rename,
                is_connection: param_attrs_of(attrs).is_connection,
                is_fds: param_attrs_of(attrs).is_fds,
                is_more: streaming && p.name == "more"@,
                ..p
            },
        ),
        _ => None,
    }
}

/// The parameters that the arguments from the second up to, not including, the `n`th are.
pub open spec fn params_of(inputs: Seq<FnArgView>, n: int, streaming: bool) -> Seq<ParamInfoView>
    decreases n,
{
    if n <= 1 {
        seq![]
    } else {
        match param_with_attrs(inputs[n - 1], streaming) {
            Some(p) => params_of(inputs, n - 1, streaming).push(p),
            None => params_of(inputs, n - 1, streaming),
        }
    }
}

/// The type that `Reply<T>` is about, where the type is one.
pub open spec fn reply_type_of(ty: TypeView) -> Seq<char> {
    match ty.last_segment {
        Some(segment) => if segment.ident != "Reply"@ {
            ty.text
        } else {
            match segment.args {
                None => ty.text,
                Some(args) => if args.len() == 0 {
                    ty.text
                } else {
                    match args[0] {
                        GenericArgView::Type { text, .. } => text,
                        GenericArgView::Other => ty.text,
                    }
                },
            }
        },
        None => ty.text,
    }
}

/// What is sent of an output: of a stream its items, and of a pair with file descriptors what stands
/// beside them.
pub open spec fn sent_part(ty: TypeView, streaming: bool, return_fds: bool) -> TypeView {
    let item = match types::stream_item(ty.bound_types, 0) {
        Some(item) if streaming => item,
        _ => ty,
    };
    if return_fds && item.first_of_pair is Some {
        *item.first_of_pair->0
    } else {
        item
    }
}

/// The types of replies and errors, and whether the method returns a `Result`.
pub open spec fn output_of(output: Option<TypeView>, streaming: bool, return_fds: bool) -> (
    Option<Seq<char>>,
    bool,
    Option<Seq<char>>,
) {
    match output {
        None => (None, false, None),
        Some(ty) => {
            let sent = sent_part(ty, streaming, return_fds);
            if streaming {
                (Some(reply_type_of(sent)), false, None)
            } else {
                match result_types_of(sent) {
                    Some((ok, err)) => (ok, true, Some(err)),
                    None => (Some(sent.text), false, None),
                }
            }
        },
    }
}

/// The type that `Reply<T>` is about, where the type is one.
fn extract_reply_type(ty: &Type) -> (r: String)
    ensures
        r@ == reply_type_of(ty@),
{
    if let Some(segment) = &ty.last_segment {
        if str_eq(segment.ident.as_str(), "Reply") {
            if let Some(args) = &segment.args {
                if args.len() > 0 {
                    assert(ty@.last_segment->0.args->0[0] == args@[0]@);
                    if let GenericArg::Type { text, .. } = &args[0] {
                        return text.clone();
                    }
                }
            }
        }
    }
    ty.text.clone()
}

/// What is sent of an output.
fn extract_sent_part(ty: &Type, streaming: bool, return_fds: bool) -> (r: &Type)
    ensures
        r@ == sent_part(ty@, streaming, return_fds),
{
    proof {
        reveal_with_fuel(types::type_view, 3);
    }
    let mut item = ty;
    if streaming {
        if let Some(inner) = ty.stream_item() {
            item = inner;
        }
    }
    if return_fds {
        if let Some(inner) = &item.first_of_pair {
            return &**inner;
        }
    }
    item
}

/// The types of replies and errors, and whether the method returns a `Result`.
pub fn extract_output(output: &Option<Type>, streaming: bool, return_fds: bool) -> (r: (
    Option<String>,
    bool,
    Option<String>,
))
    ensures
        (text::optional(r.0), r.1, text::optional(r.2)) == output_of(
            match *output {
                Some(ty) => Some(ty@),
                None => None,
            },
            streaming,
            return_fds,
        ),
{
    match output {
        None => (None, false, None),
        Some(ty) => {
            let sent = extract_sent_part(ty, streaming, return_fds);
            if streaming {
                (Some(extract_reply_type(sent)), false, None)
            } else {
                match extract_result_types(sent) {
                    Some((ok, err)) => (ok, true, Some(err)),
                    None => (Some(sent.text.clone()), false, None),
                }
            }
        },
    }
}

/// The interface that holds from a method on: the one that it names, or else the one before it.
pub open spec fn next_interface(a: MethodAttrsView, current: Option<Seq<char>>) -> Option<Seq<char>> {
    match a.interface {
        Some(name) => Some(name),
        None => current,
    }
}

impl ImplMethod {
    /// What the macro knows of the method, with what its attributes say, where `current` is the
    /// interface of the method before it.
    pub open spec fn info(self, a: MethodAttrsView, current: Option<Seq<char>>) -> MethodInfoView {
        let (return_type, returns_result, error_type) = output_of(
            match self.output {
                Some(ty) => Some(ty@),
                None => None,
            },
            a.more,
            a.return_fds,
        );
        MethodInfoView {
            name: self.name@,
            varlink_name: match a.rename {
                Some(name) => name,
                None => pascal_words(self.name@, 0),
            },
            interface: next_interface(a, current),
            params: params_of(inputs_view(self.inputs@), self.inputs@.len() as int, a.more),
            return_type,
            returns_result,
            error_type,
            body: self.body@,
            is_streaming: a.more,
            return_fds: a.return_fds,
        }
    }
}

/// The parameters that the arguments behind the first are.
fn extract_params(inputs: &Vec<FnArg>, streaming: bool) -> (r: Vec<ParamInfo>)
    ensures
        params_view(r@) == params_of(inputs_view(inputs@), inputs@.len() as int, streaming),
{
    let ghost all = inputs_view(inputs@);
    let mut params: Vec<ParamInfo> = Vec::new();
    assert(params_view(params@) =~= seq![]);
    let mut i: usize = 1;
    while i < inputs.len()
        invariant
            all == inputs_view(inputs@),
            1 <= i,
            inputs@.len() > 0 ==> i <= inputs@.len(),
            inputs@.len() == 0 ==> i == 1,
            params_view(params@) == params_of(all, i as int, streaming),
        decreases inputs@.len() - i,
    {
        let ghost before = params@;
        assert(all[i as int] == inputs@[i as int]@);
        if let Some(param) = ParamInfo::from_fn_arg(&inputs[i]) {
            let mut param = param;
            if let FnArg::Typed(arg) = &inputs[i] {
                let attrs = extract_param_attrs(arg.attrs.as_slice());
                param.serialized_name = attrs.rename;
                param.is_connection = attrs.is_connection;
                param.is_fds = attrs.is_fds;
                param.is_more = streaming && str_eq(param.name.as_str(), "more");
            }
            assert(param_with_attrs(all[i as int], streaming) == Some(param@));
            params.push(param);
            assert(params_view(params@) =~= params_view(before).push(param@));
        }
        i += 1;
    }
    params
}

impl MethodInfo {
    /// What the macro knows of a method, whose `zlink` attributes are taken off. The interface that
    /// the method names holds from then on. Where something is wrong with its attributes, nothing
    /// changes.
    pub fn extract(method: &mut ImplMethod, current_interface: &mut Option<String>) -> (r: Result<
        MethodInfo,
        String,
    >)
        ensures
            ({
                let current = text::optional(*old(current_interface));
                match (r, method_attrs_of(meta::attributes_view(old(method).attrs@))) {
                    (Ok(info), Ok(a)) => {
                        &&& info@ == old(method).info(a, current)
                        &&& text::optional(*final(current_interface)) == next_interface(a, current)
                        &&& final(method).attrs@ == other_attrs(old(method).attrs@, 0)
                        &&& final(method).name == old(method).name
                        &&& final(method).inputs == old(method).inputs
                        &&& final(method).output == old(method).output
                        &&& final(method).body == old(method).body
                    },
                    (Err(e), Err(message)) => {
                        &&& e@ == message
                        &&& text::optional(*final(current_interface)) == current
                        &&& final(method).attrs@ == old(method).attrs@
                        &&& final(method).name == old(method).name
                        &&& final(method).inputs == old(method).inputs
                        &&& final(method).output == old(method).output
                        &&& final(method).body == old(method).body
                    },
                    _ => false,
                }
            }),
    {
        let attrs = match MethodAttrs::extract(&mut method.attrs) {
            Err(message) => {
                return Err(message);
            },
            Ok(attrs) => attrs,
        };
        if let Some(name) = &attrs.interface {
            *current_interface = Some(name.clone());
        }
        let varlink_name = match attrs.rename {
            Some(name) => name,
            None => snake_case_to_pascal_case(method.name.as_str()),
        };
        let params = extract_params(&method.inputs, attrs.more);
        let (return_type, returns_result, error_type) = extract_output(
            &method.output,
            attrs.more,
            attrs.return_fds,
        );
        let interface = clone_optional(current_interface);
        Ok(
            MethodInfo {
                name: method.name.clone(),
                varlink_name,
                interface,
                params,
                return_type,
                returns_result,
                error_type,
                body: method.body.clone(),
                is_streaming: attrs.more,
                return_fds: attrs.return_fds,
            },
        )
    }

    /// The name of the method with that of its interface in front, where it has one.
    pub fn full_method_path(&self) -> (r: Option<String>)
        ensures
            text::optional(r) == self@.full_path(),
    {
        match &self.interface {
            None => None,
            Some(interface) => {
                let mut path = interface.clone();
                path.append(".");
                path.append(self.varlink_name.as_str());
                Some(path)
            },
        }
    }

    /// Whether a parameter of the method receives the connection.
    pub fn has_connection_param(&self) -> (r: bool)
        ensures
            r == self@.uses_connection(),
    {
        let mut i: usize = 0;
        while i < self.params.len()
            invariant
                i <= self.params@.len(),
                forall|k: int| 0 <= k < i ==> !(#[trigger] self@.params[k]).is_connection,
            decreases self.params@.len() - i,
        {
            assert(self@.params[i as int] == self.params@[i as int]@);
            if self.params[i].is_connection {
                return true;
            }
            i += 1;
        }
        false
    }

    /// Whether the body of the method is put in place of its calls: it receives the connection, or
    /// replies with a stream, which must not borrow from the service.
    pub fn is_inlined(&self) -> (r: bool)
        ensures
            r == self@.inlined(),
    {
        self.is_streaming || self.has_connection_param()
    }

    /// The parameters that come over the wire.
    pub fn serialized_params<'a>(&'a self) -> (r: Vec<&'a ParamInfo>)
        ensures
            refs_view(r@) == wire_params(self@.params),
    {
        let ghost all = self@.params;
        let mut found: Vec<&'a ParamInfo> = Vec::new();
        let mut i: usize = 0;
        assert(refs_view(found@) =~= wire_params(all.take(0)));
        while i < self.params.len()
            invariant
                i <= self.params@.len(),
                all == self@.params,
                refs_view(found@) == wire_params(all.take(i as int)),
            decreases self.params@.len() - i,
        {
            let ghost before = found@;
            proof {
                assert(all.take(i + 1).drop_last() =~= all.take(i as int));
                assert(all.take(i + 1).last() == self.params@[i as int]@);
            }
            if self.params[i].is_serialized() {
                found.push(&self.params[i]);
                assert(refs_view(found@) =~= refs_view(before).push(self.params@[i as int]@));
            }
            i += 1;
        }
        assert(all.take(all.len() as int) =~= all);
        found
    }
}

/// What a list of references to parameters says.
pub open spec fn refs_view(params: Seq<&ParamInfo>) -> Seq<ParamInfoView> {
    Seq::new(params.len(), |i: int| params[i]@)
}

/// The parameters that come over the wire: all but those that receive the connection, the file
/// descriptors or whether more is wanted.
pub open spec fn wire_params(params: Seq<ParamInfoView>) -> Seq<ParamInfoView>
    decreases params.len(),
{
    if params.len() == 0 {
        seq![]
    } else if params.last().comes_over_wire() {
        wire_params(params.drop_last()).push(params.last())
    } else {
        wire_params(params.drop_last())
    }
}

impl MethodInfoView {
    /// The name of the method with that of its interface in front.
    pub open spec fn full_path(self) -> Option<Seq<char>> {
        match self.interface {
            None => None,
            Some(interface) => Some(interface + "."@ + self.varlink_name),
        }
    }

    /// Whether a parameter of the method receives the connection.
    pub open spec fn uses_connection(self) -> bool {
        exists|k: int| 0 <= k < self.params.len() && (#[trigger] self.params[k]).is_connection
    }

    /// Whether the body of the method is put in place of its calls.
    pub open spec fn inlined(self) -> bool {
        self.is_streaming || self.uses_connection()
    }
}

/// The interface that holds behind the first `k` methods of a series, whose attributes say `attrs`,
/// where `current` held in front of them.
pub open spec fn interface_behind(
    attrs: Seq<MethodAttrsView>,
    current: Option<Seq<char>>,
    k: nat,
) -> Option<Seq<char>>
    decreases k,
{
    if k == 0 {
        current
    } else {
        next_interface(attrs[k - 1], interface_behind(attrs, current, (k - 1) as nat))
    }
}

/// In a series of methods, each belongs to the interface that the nearest method at or before it
/// names. Where none does, it belongs to the one that held in front of the series.
pub proof fn law_interface_carries_over(
    methods: Seq<ImplMethod>,
    attrs: Seq<MethodAttrsView>,
    current: Option<Seq<char>>,
    k: nat,
    j: int,
)
    requires
        methods.len() == attrs.len(),
        k < methods.len(),
    ensures
        0 <= j <= k && attrs[j].interface is Some && (forall|i: int|
            j < i <= k ==> (#[trigger] attrs[i]).interface is None) ==> methods[k as int].info(
            attrs[k as int],
            interface_behind(attrs, current, k),
        ).interface == attrs[j].interface,
        (forall|i: int| 0 <= i <= k ==> (#[trigger] attrs[i]).interface is None)
            ==> methods[k as int].info(
            attrs[k as int],
            interface_behind(attrs, current, k),
        ).interface == current,
    decreases k,
{
    if k > 0 {
        assert(attrs[k as int].interface is None || attrs[k as int].interface is Some);
        law_interface_carries_over(methods, attrs, current, (k - 1) as nat, j);
    }
}

/// No `zlink` attribute is left on a method, and what is left was there before.
pub proof fn law_no_zlink_attribute_is_left(attrs: Seq<Attribute>, i: int)
    requires
        0 <= i,
    ensures
        forall|k: int|
            0 <= k < other_attrs(attrs, i).len() ==> (#[trigger] other_attrs(attrs, i)[k])@.path
                != Some("zlink"@) && attrs.contains(other_attrs(attrs, i)[k]),
    decreases attrs.len() - i,
{
    if i < attrs.len() {
        law_no_zlink_attribute_is_left(attrs, i + 1);
        let rest = other_attrs(attrs, i + 1);
        let all = other_attrs(attrs, i);
        assert forall|k: int| 0 <= k < all.len() implies (#[trigger] all[k])@.path != Some(
            "zlink"@,
        ) && attrs.contains(all[k]) by {
            if attrs[i]@.path == Some("zlink"@) {
                assert(all[k] == rest[k]);
            } else if k > 0 {
                assert(all[k] == rest[k - 1]);
            }
        }
    }
}

/// What comes over the wire is every parameter but those that receive the connection, the file
/// descriptors or whether more is wanted.
pub proof fn law_wire_params_are_all_but_the_special_ones(params: Seq<ParamInfoView>, p: ParamInfoView)
    ensures
        wire_params(params).contains(p) <==> params.contains(p) && !p.is_connection && !p.is_fds
            && !p.is_more,
    decreases params.len(),
{
    if params.len() > 0 {
        let before = params.drop_last();
        law_wire_params_are_all_but_the_special_ones(before, p);
        let all = wire_params(params);
        let some = wire_params(before);
        assert(params =~= before.push(params.last()));
        if params.contains(p) {
            let k = choose|k: int| 0 <= k < params.len() && params[k] == p;
            if k < before.len() {
                assert(before[k] == p);
            }
        }
        if before.contains(p) {
            let k = choose|k: int| 0 <= k < before.len() && before[k] == p;
            assert(params[k] == p);
        }
        if some.contains(p) {
            let k = choose|k: int| 0 <= k < some.len() && some[k] == p;
            assert(all[k] == p);
        }
        if all.contains(p) {
            let k = choose|k: int| 0 <= k < all.len() && all[k] == p;
            if k < some.len() {
                assert(some[k] == p);
            }
        }
        if params.last().comes_over_wire() {
            assert(all[all.len() - 1] == params.last());
        }
        assert(params[params.len() - 1] == params.last());
    }
}

} // verus!
