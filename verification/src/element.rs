use vstd::prelude::*;

use rand::RngCore;

use crate::config::TextConfig;
use crate::container::ContainerConfig;
use crate::container::ContainerElement;
use crate::decimal::u64_to_decimal;
use crate::geometry::Dimension2D;
use crate::strutil::str_eq;

verus! {

/// Whether two optional identifiers hold the same text.
pub open spec fn spec_opt_str_eq(a: Option<String>, b: Option<String>) -> bool {
    match (a, b) {
        (Option::None, Option::None) => true,
        (Option::Some(x), Option::Some(y)) => x@ == y@,
        _ => false,
    }
}

fn opt_string_eq(a: &Option<String>, b: &Option<String>) -> (r: bool)
    ensures
        r == spec_opt_str_eq(*a, *b),
{
    match (a, b) {
        (Option::None, Option::None) => true,
        (Option::Some(x), Option::Some(y)) => *x == *y,
        _ => false,
    }
}

fn clone_opt_string(a: &Option<String>) -> (r: Option<String>)
    ensures
        r == *a,
{
    match a {
        Option::Some(s) => Option::Some(s.clone()),
        Option::None => Option::None,
    }
}

/// Whether two text style records agree on every field, comparing the
/// optional font name by its text.
pub open spec fn spec_eq_text_config(a: TextConfig, b: TextConfig) -> bool {
    &&& a.color == b.color
    &&& a.font_id == b.font_id
    &&& a.font_size == b.font_size
    &&& spec_opt_str_eq(a.font_name, b.font_name)
    &&& a.letter_spacing == b.letter_spacing
    &&& a.line_height == b.line_height
    &&& a.wrap_mode == b.wrap_mode
    &&& a.text_alignment == b.text_alignment
}

impl vstd::std_specs::cmp::PartialEqSpecImpl for TextConfig {
    open spec fn obeys_eq_spec() -> bool {
        true
    }

    open spec fn eq_spec(&self, other: &TextConfig) -> bool {
        spec_eq_text_config(*self, *other)
    }
}

impl PartialEq for TextConfig {
    fn eq(&self, other: &TextConfig) -> (r: bool) {
        let names_eq = opt_string_eq(&self.font_name, &other.font_name);
        let rr = self.color == other.color && self.font_id == other.font_id && self.font_size
            == other.font_size && names_eq && self.letter_spacing == other.letter_spacing
            && self.line_height == other.line_height && self.wrap_mode == other.wrap_mode
            && self.text_alignment == other.text_alignment;
        proof {
            assert(rr == spec_eq_text_config(*self, *other));
        }
        rr
    }
}

impl Clone for TextConfig {
    fn clone(&self) -> (r: Self)
        ensures
            r == *self,
    {
        TextConfig {
            color: self.color,
            font_id: self.font_id,
            font_size: self.font_size,
            font_name: clone_opt_string(&self.font_name),
            letter_spacing: self.letter_spacing,
            line_height: self.line_height,
            wrap_mode: self.wrap_mode,
            text_alignment: self.text_alignment,
        }
    }
}

/// A text leaf: an optional identifier, its style, and the text to show.
#[derive(Debug)]
pub struct TextElement {
    pub id: Option<String>,
    pub config: TextConfig,
    pub data: String,
}

impl TextElement {
    pub fn new(config: TextConfig, data: String, id: Option<String>) -> (r: Self)
        ensures
            r == (TextElement { id, config, data }),
    {
        TextElement { config, data, id }
    }

    pub fn config(&self) -> (r: &TextConfig)
        ensures
            r == self.config,
    {
        &self.config
    }

    pub fn data(&self) -> (r: &String)
        ensures
            r == self.data,
    {
        &self.data
    }

    pub fn id(&self) -> (r: Option<&String>)
        ensures
            r is Some <==> self.id is Some,
            r is Some ==> r->0 == &self.id->0,
    {
        self.id.as_ref()
    }
}

impl Clone for TextElement {
    fn clone(&self) -> (r: Self)
        ensures
            r == *self,
    {
        TextElement {
            id: clone_opt_string(&self.id),
            config: self.config.clone(),
            data: self.data.clone(),
        }
    }
}

#[derive(Debug, Clone, Copy, PartialEq, Eq, Structural)]
pub struct ImageConfig {
    pub src_dimensions: Dimension2D,
}

/// Where an image's pixels come from: a file on disk, or bytes already in
/// memory together with their format name.
#[derive(Debug)]
pub enum ImageData {
    File { path: String },
    Bytes { file_type: String, bytes: Vec<u8> },
}

/// Whether two image sources are the same, comparing texts and bytes.
pub open spec fn spec_eq_image_data(a: ImageData, b: ImageData) -> bool {
    match (a, b) {
        (ImageData::File { path: p1 }, ImageData::File { path: p2 }) => p1@ == p2@,
        (
            ImageData::Bytes { file_type: t1, bytes: b1 },
            ImageData::Bytes { file_type: t2, bytes: b2 },
        ) => t1@ == t2@ && b1@ == b2@,
        _ => false,
    }
}

fn eq_bytes(a: &Vec<u8>, b: &Vec<u8>) -> (r: bool)
    ensures
        r == (a@ == b@),
{
    if a.len() != b.len() {
        proof {
            assert(a@ != b@);
        }
        return false;
    }
    let n = a.len();
    let mut i: usize = 0;
    while i < n
        invariant
            n == a@.len() == b@.len(),
            i <= n,
            forall|j: int| 0 <= j < i ==> a@[j] == b@[j],
        decreases n - i,
    {
        if a[i] != b[i] {
            proof {
                assert(a@ != b@);
            }
            return false;
        }
        i += 1;
    }
    proof {
        assert(a@ =~= b@);
    }
    true
}

fn clone_bytes(a: &Vec<u8>) -> (r: Vec<u8>)
    ensures
        r@ == a@,
{
    let n = a.len();
    let mut r: Vec<u8> = Vec::new();
    let mut i: usize = 0;
    while i < n
        invariant
            n == a@.len(),
            i <= n,
            r@ =~= a@.take(i as int),
        decreases n - i,
    {
        r.push(a[i]);
        i += 1;
    }
    proof {
        assert(r@ =~= a@);
    }
    r
}

impl Clone for ImageData {
    fn clone(&self) -> (r: Self)
        ensures
            spec_eq_image_data(r, *self),
    {
        match self {
            ImageData::File { path } => ImageData::File { path: path.clone() },
            ImageData::Bytes { file_type, bytes } => ImageData::Bytes {
                file_type: file_type.clone(),
                bytes: clone_bytes(bytes),
            },
        }
    }
}

/// An image leaf: a mandatory identifier, the pixel source, and its
/// configuration.
#[derive(Debug)]
pub struct ImageElement {
    pub id: String,
    pub data: ImageData,
    pub config: ImageConfig,
}

/// Relies on rand::rng and rand::RngCore::next_u64 for a fresh arbitrary
/// number when an image is built without a caller-supplied identifier.
#[verifier::external_body]
fn random_u64() -> u64 {
    rand::rng().next_u64()
}

impl ImageElement {
    /// Builds an image element; an absent identifier is replaced by the
    /// decimal writing of an arbitrary number.
    pub fn new(config: ImageConfig, data: ImageData, id: Option<String>) -> (r: Self)
        ensures
            r.config == config,
            r.data == data,
            id matches Some(s) ==> r.id == s,
            id is None ==> exists|n: nat| r.id@ == #[trigger] crate::decimal::spec_decimal(n),
    {
        let id = match id {
            Option::Some(s) => s,
            Option::None => u64_to_decimal(random_u64()),
        };
        ImageElement { config, data, id }
    }

    pub fn config(&self) -> (r: &ImageConfig)
        ensures
            r == self.config,
    {
        &self.config
    }

    pub fn id(&self) -> (r: &String)
        ensures
            r == self.id,
    {
        &self.id
    }
}

impl Clone for ImageElement {
    fn clone(&self) -> (r: Self)
        ensures
            r.id@ == self.id@,
            spec_eq_image_data(r.data, self.data),
            r.config == self.config,
    {
        ImageElement { id: self.id.clone(), data: self.data.clone(), config: self.config }
    }
}

/// A node of the element tree: a container with style, a text leaf, or an
/// image leaf.
#[derive(Debug)]
pub enum Element {
    Container(ContainerElement),
    Text(TextElement),
    Image(ImageElement),
}

/// Whether two elements are the same node content: same variant, identifiers
/// holding the same text, and equal configuration and payload.
pub open spec fn spec_eq_element(a: Element, b: Element) -> bool {
    match (a, b) {
        (Element::Container(x), Element::Container(y)) => {
            &&& spec_opt_str_eq(x.id, y.id)
            &&& x.config == y.config
        },
        (Element::Text(x), Element::Text(y)) => {
            &&& spec_opt_str_eq(x.id, y.id)
            &&& spec_eq_text_config(x.config, y.config)
            &&& x.data@ == y.data@
        },
        (Element::Image(x), Element::Image(y)) => {
            &&& x.id@ == y.id@
            &&& spec_eq_image_data(x.data, y.data)
            &&& x.config == y.config
        },
        _ => false,
    }
}

impl vstd::std_specs::cmp::PartialEqSpecImpl for Element {
    open spec fn obeys_eq_spec() -> bool {
        true
    }

    open spec fn eq_spec(&self, other: &Element) -> bool {
        spec_eq_element(*self, *other)
    }
}

impl PartialEq for Element {
    fn eq(&self, other: &Element) -> (r: bool) {
        match (self, other) {
            (Element::Container(x), Element::Container(y)) => opt_string_eq(&x.id, &y.id)
                && x.config == y.config,
            (Element::Text(x), Element::Text(y)) => opt_string_eq(&x.id, &y.id) && x.config
                == y.config && x.data == y.data,
            (Element::Image(x), Element::Image(y)) => x.id == y.id && match (&x.data, &y.data) {
                (ImageData::File { path: p1 }, ImageData::File { path: p2 }) => *p1 == *p2,
                (
                    ImageData::Bytes { file_type: t1, bytes: b1 },
                    ImageData::Bytes { file_type: t2, bytes: b2 },
                ) => *t1 == *t2 && eq_bytes(b1, b2),
                _ => false,
            } && x.config == y.config,
            _ => false,
        }
    }
}

impl Clone for Element {
    fn clone(&self) -> (r: Self)
        ensures
            spec_eq_element(r, *self),
    {
        match self {
            Element::Container(c) => Element::Container(c.clone()),
            Element::Text(t) => Element::Text(t.clone()),
            Element::Image(i) => Element::Image(i.clone()),
        }
    }
}

impl Element {
    pub fn container(config: ContainerConfig, id: Option<String>) -> (r: Self)
        ensures
            r == Element::Container(ContainerElement { id, config }),
    {
        Element::Container(ContainerElement::new(config, id))
    }

    pub fn text(config: TextConfig, data: String, id: Option<String>) -> (r: Self)
        ensures
            r == Element::Text(TextElement { id, config, data }),
    {
        Element::Text(TextElement::new(config, data, id))
    }

    pub fn image(config: ImageConfig, data: ImageData, id: Option<String>) -> (r: Self)
        ensures
            r matches Element::Image(e) && e.config == config && e.data == data,
            r matches Element::Image(e) && (id matches Some(s) ==> e.id == s),
    {
        Element::Image(ImageElement::new(config, data, id))
    }

    /// The element's identifier, where it has one.
    pub fn id(&self) -> (r: Option<&String>)
        ensures
            r == self.spec_id(),
    {
        match self {
            Element::Container(container_element) => container_element.id.as_ref(),
            Element::Text(text_element) => text_element.id.as_ref(),
            Element::Image(image_element) => Option::Some(&image_element.id),
        }
    }

    pub open spec fn spec_id(&self) -> Option<&String> {
        match self {
            Element::Container(container_element) => match container_element.id {
                Option::Some(ref s) => Option::Some(s),
                Option::None => Option::None,
            },
            Element::Text(text_element) => match text_element.id {
                Option::Some(ref s) => Option::Some(s),
                Option::None => Option::None,
            },
            Element::Image(image_element) => Option::Some(&image_element.id),
        }
    }

    /// Whether the element's identifier reads `id`.
    pub fn has_id(&self, id: &str) -> (r: bool)
        ensures
            r == (self.spec_id_view() == Option::Some(id@)),
    {
        match self {
            Element::Container(c) => match &c.id {
                Option::Some(s) => str_eq(s.as_str(), id),
                Option::None => false,
            },
            Element::Text(t) => match &t.id {
                Option::Some(s) => str_eq(s.as_str(), id),
                Option::None => false,
            },
            Element::Image(im) => str_eq(im.id.as_str(), id),
        }
    }

    /// The text of the element's identifier, where it has one.
    pub open spec fn spec_id_view(&self) -> Option<Seq<char>> {
        match self {
            Element::Container(container_element) => match container_element.id {
                Option::Some(s) => Option::Some(s@),
                Option::None => Option::None,
            },
            Element::Text(text_element) => match text_element.id {
                Option::Some(s) => Option::Some(s@),
                Option::None => Option::None,
            },
            Element::Image(image_element) => Option::Some(image_element.id@),
        }
    }
}

} // verus!
