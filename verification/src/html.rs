//! The parse-time element tree: the abstract syntax that the analyzer builds
//! from a markup token stream.

use vstd::prelude::*;

verus! {

/// Mathematical model of an attribute: a name with an optional value.
pub struct AttributeView {
    pub name: Seq<char>,
    pub value: Option<Seq<char>>,
}

/// A single markup attribute, in declaration order within its element.
#[derive(PartialEq, Debug, Clone)]
pub struct HtmlAttribute {
    pub name: String,
    pub value: Option<String>,
}

impl View for HtmlAttribute {
    type V = AttributeView;

    open spec fn view(&self) -> AttributeView {
        AttributeView {
            name: self.name@,
            value: match self.value {
                Some(v) => Some(v@),
                None => None,
            },
        }
    }
}

impl HtmlAttribute {
    pub fn new(name: String, value: Option<String>) -> (r: HtmlAttribute)
        ensures
            r.name == name,
            r.value == value,
    {
        HtmlAttribute { name, value }
    }
}

/// Mathematical model of a parsed element: its name, its attributes in
/// declaration order, its child elements in document order, and its
/// optional inline text.
pub struct ElementView {
    pub name: Seq<char>,
    pub attributes: Seq<AttributeView>,
    pub children: Seq<ElementView>,
    pub text: Option<Seq<char>>,
}

/// A parsed tag: name, ordered attributes, ordered children, optional text.
#[derive(PartialEq, Debug)]
pub struct HtmlElement {
    pub(crate) name: String,
    pub(crate) attributes: Vec<HtmlAttribute>,
    pub(crate) children: Vec<HtmlElement>,
    pub(crate) text: Option<String>,
}

/// The models of a sequence of attributes.
pub open spec fn attrs_view(s: Seq<HtmlAttribute>) -> Seq<AttributeView> {
    s.map_values(|a: HtmlAttribute| a@)
}

/// The model of one parsed element.
pub closed spec fn elem_view(e: HtmlElement) -> ElementView
    decreases e,
{
    ElementView {
        name: e.name@,
        attributes: attrs_view(e.attributes@),
        children: elems_view(e.children@),
        text: match e.text {
            Some(t) => Some(t@),
            None => None,
        },
    }
}

/// The models of a sequence of parsed elements.
pub open spec fn elems_view(s: Seq<HtmlElement>) -> Seq<ElementView>
    decreases s,
{
    Seq::new(
        s.len(),
        |i: int|
            if 0 <= i < s.len() {
                elem_view(s[i])
            } else {
                arbitrary()
            },
    )
}

impl View for HtmlElement {
    type V = ElementView;

    open spec fn view(&self) -> ElementView {
        elem_view(*self)
    }
}

/// How an element's model is made from its parts.
pub(crate) proof fn lemma_elem_view_parts(e: HtmlElement)
    ensures
        e@.name == e.name@,
        e@.attributes == attrs_view(e.attributes@),
        e@.children == elems_view(e.children@),
        e@.text == (match e.text {
            Some(t) => Some(t@),
            None => None,
        }),
{
}

impl HtmlElement {
    pub fn new(
        name: String,
        attributes: Vec<HtmlAttribute>,
        children: Vec<HtmlElement>,
        text: Option<String>,
    ) -> (r: HtmlElement)
        ensures
            r@ == (ElementView {
                name: name@,
                attributes: attrs_view(attributes@),
                children: elems_view(children@),
                text: match text {
                    Some(t) => Some(t@),
                    None => None,
                },
            }),
    {
        HtmlElement { name, attributes, children, text }
    }

    /// Appends one attribute at the end of the declaration order.
    pub fn add_attribute(&mut self, attribute: HtmlAttribute)
        ensures
            final(self)@ == (ElementView {
                attributes: old(self)@.attributes.push(attribute@),
                ..old(self)@
            }),
    {
        self.attributes.push(attribute);
        proof {
            assert(attrs_view(self.attributes@) =~= attrs_view(old(self).attributes@).push(
                attribute@,
            ));
            assert(elems_view(self.children@) =~= elems_view(old(self).children@));
        }
    }

    /// Appends one child element at the end of the document order.
    pub fn add_child(&mut self, child: HtmlElement)
        ensures
            final(self)@ == (ElementView {
                children: old(self)@.children.push(child@),
                ..old(self)@
            }),
    {
        self.children.push(child);
        proof {
            assert(elems_view(self.children@) =~= elems_view(old(self).children@).push(child@));
            assert(attrs_view(self.attributes@) =~= attrs_view(old(self).attributes@));
        }
    }

    pub fn get_name(&self) -> (r: &String)
        ensures
            r@ == self@.name,
    {
        &self.name
    }

    /// Replaces the element's inline text.
    pub fn set_text(&mut self, text: Option<String>)
        ensures
            final(self)@ == (ElementView {
                text: match text {
                    Some(t) => Some(t@),
                    None => None,
                },
                ..old(self)@
            }),
    {
        self.text = text;
        proof {
            assert(elems_view(self.children@) =~= elems_view(old(self).children@));
            assert(attrs_view(self.attributes@) =~= attrs_view(old(self).attributes@));
        }
    }

    pub fn get_text(&self) -> (r: &Option<String>)
        ensures
            match r {
                Some(t) => self@.text == Some(t@),
                None => self@.text is None,
            },
    {
        &self.text
    }

    pub fn children(&self) -> (r: &Vec<HtmlElement>)
        ensures
            elems_view(r@) == self@.children,
    {
        &self.children
    }

    pub fn attributes(&self) -> (r: &Vec<HtmlAttribute>)
        ensures
            attrs_view(r@) == self@.attributes,
    {
        &self.attributes
    }
}

/// A compiled markup literal: the single root element.
#[derive(PartialEq, Debug)]
pub struct Html {
    root: HtmlElement,
}

impl View for Html {
    type V = ElementView;

    closed spec fn view(&self) -> ElementView {
        self.root@
    }
}

impl Html {
    pub fn new(root: HtmlElement) -> (r: Html)
        ensures
            r@ == root@,
    {
        Html { root }
    }

    pub fn root(&self) -> (r: &HtmlElement)
        ensures
            r@ == self@,
    {
        &self.root
    }
}

} // verus!
