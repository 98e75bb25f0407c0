//! The interface that every Varlink service has.

use vstd::prelude::*;

use crate::introspect::names_view;
use crate::text;

verus! {

/// What a service is.
#[derive(Debug, Clone, PartialEq)]
pub struct Info<'a> {
    /// The vendor of the service.
    pub vendor: &'a str,
    /// The product that the service is.
    pub product: &'a str,
    /// The version of the service.
    pub version: &'a str,
    /// Where to read about the service.
    pub url: &'a str,
    /// The interfaces of the service.
    pub interfaces: Vec<&'a str>,
}

/// What a service is, in texts of its own.
#[derive(Debug, Clone, PartialEq)]
pub struct OwnedInfo {
    /// The vendor of the service.
    pub vendor: String,
    /// The product that the service is.
    pub product: String,
    /// The version of the service.
    pub version: String,
    /// Where to read about the service.
    pub url: String,
    /// The interfaces of the service.
    pub interfaces: Vec<String>,
}

/// The model of [`Info`] and of [`OwnedInfo`].
pub struct InfoView {
    /// The vendor of the service.
    pub vendor: Seq<char>,
    /// The product that the service is.
    pub product: Seq<char>,
    /// The version of the service.
    pub version: Seq<char>,
    /// Where to read about the service.
    pub url: Seq<char>,
    /// The interfaces of the service.
    pub interfaces: Seq<Seq<char>>,
}

impl View for Info<'_> {
    type V = InfoView;

    open spec fn view(&self) -> InfoView {
        InfoView {
            vendor: self.vendor@,
            product: self.product@,
            version: self.version@,
            url: self.url@,
            interfaces: names_view(self.interfaces@),
        }
    }
}

impl View for OwnedInfo {
    type V = InfoView;

    open spec fn view(&self) -> InfoView {
        InfoView {
            vendor: self.vendor@,
            product: self.product@,
            version: self.version@,
            url: self.url@,
            interfaces: text::texts(self.interfaces@),
        }
    }
}

/// What a service is, by the places of the arguments that say it.
pub open spec fn info_of(args: Seq<Seq<char>>, interfaces: Seq<Seq<char>>) -> InfoView {
    InfoView { vendor: args[0], product: args[1], version: args[2], url: args[3], interfaces }
}

impl<'a> Info<'a> {
    /// What a service is.
    pub fn new(
        vendor: &'a str,
        product: &'a str,
        version: &'a str,
        url: &'a str,
        interfaces: Vec<&'a str>,
    ) -> (r: Self)
        ensures
            r.vendor == vendor,
            r.product == product,
            r.version == version,
            r.url == url,
            r.interfaces == interfaces,
            r@ == info_of(
                seq![vendor@, product@, version@, url@],
                names_view(interfaces@),
            ),
    {
        Info { vendor, product, version, url, interfaces }
    }
}

impl OwnedInfo {
    /// What a service is.
    pub fn new(
        vendor: String,
        product: String,
        version: String,
        url: String,
        interfaces: Vec<String>,
    ) -> (r: Self)
        ensures
            r.vendor == vendor,
            r.product == product,
            r.version == version,
            r.url == url,
            r.interfaces == interfaces,
            r@ == info_of(
                seq![vendor@, product@, version@, url@],
                text::texts(interfaces@),
            ),
    {
        OwnedInfo { vendor, product, version, url, interfaces }
    }

    /// The same in texts of its own.
    pub fn from_info(info: &Info<'_>) -> (r: Self)
        ensures
            r@ == info@,
    {
        let mut interfaces: Vec<String> = Vec::new();
        let mut i: usize = 0;
        assert(text::texts(interfaces@) =~= info@.interfaces.take(0));
        while i < info.interfaces.len()
            invariant
                i <= info.interfaces@.len(),
                text::texts(interfaces@) == info@.interfaces.take(i as int),
            decreases info.interfaces@.len() - i,
        {
            let name = info.interfaces[i].to_string();
            proof {
                text::lemma_texts_push(interfaces@, name);
                assert(info@.interfaces.take(i + 1) =~= info@.interfaces.take(i as int).push(
                    name@,
                ));
            }
            interfaces.push(name);
            i += 1;
        }
        assert(info@.interfaces.take(i as int) =~= info@.interfaces);
        OwnedInfo {
            vendor: info.vendor.to_string(),
            product: info.product.to_string(),
            version: info.version.to_string(),
            url: info.url.to_string(),
            interfaces,
        }
    }
}

impl<'a> vstd::std_specs::convert::FromSpecImpl<Info<'a>> for OwnedInfo {
    open spec fn obeys_from_spec() -> bool {
        false
    }

    open spec fn from_spec(info: Info<'a>) -> OwnedInfo {
        arbitrary()
    }
}

impl<'a> From<Info<'a>> for OwnedInfo {
    fn from(info: Info<'a>) -> (r: Self)
        ensures
            r@ == info@,
    {
        OwnedInfo::from_info(&info)
    }
}

} // verus!
