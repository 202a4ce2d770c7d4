//! The document model the decoders populate.
//!
//! A parsed file is one [`Supernote`] value owning its header, footer,
//! pages, layers and annotations. Every entity is constructed once from
//! decoded bytes during a single parse pass and never mutated afterwards.
//! Bitmap, vector and stroke-path byte buffers stay `None` until a caller
//! explicitly resolves them through the block reader, so metadata-only
//! inspection of a document stays cheap. String-keyed metadata maps keep
//! insertion order, as vectors of key/value entries.

use crate::error::ParseError;
use crate::layers::LayerInfo;
use crate::scan::str_eq;
use vstd::prelude::*;

verus! {

/// The closed set of legal layer roles. Layer ordering depends on this set
/// being closed: any other role met in an address table is a format error.
#[derive(Clone, Copy, Debug, PartialEq, Eq, Structural)]
pub enum LayerNames {
    MainLayer,
    Layer1,
    Layer2,
    Layer3,
    BgLayer,
}

/// The role string that names each legal layer role in an address table.
pub open spec fn spec_role_text(n: LayerNames) -> Seq<char> {
    match n {
        LayerNames::MainLayer => "MAINLAYER"@,
        LayerNames::Layer1 => "LAYER1"@,
        LayerNames::Layer2 => "LAYER2"@,
        LayerNames::Layer3 => "LAYER3"@,
        LayerNames::BgLayer => "BGLAYER"@,
    }
}

/// Whether `s` names one of the five legal layer roles.
pub open spec fn is_known_role(s: Seq<char>) -> bool {
    s == "MAINLAYER"@ || s == "LAYER1"@ || s == "LAYER2"@ || s == "LAYER3"@ || s == "BGLAYER"@
}

impl LayerNames {
    /// Parses the layer-role string of an address-table entry. A role
    /// outside the closed set is surfaced as
    /// [`ParseError::UnknownLayerRole`], never silently dropped.
    pub fn from_text(s: &str) -> (r: Result<LayerNames, ParseError>)
        ensures
            r is Ok <==> is_known_role(s@),
            r is Ok ==> s@ == spec_role_text(r->Ok_0),
            r is Err ==> r->Err_0 == ParseError::UnknownLayerRole,
    {
        if str_eq(s, "MAINLAYER") {
            Ok(LayerNames::MainLayer)
        } else if str_eq(s, "LAYER1") {
            Ok(LayerNames::Layer1)
        } else if str_eq(s, "LAYER2") {
            Ok(LayerNames::Layer2)
        } else if str_eq(s, "LAYER3") {
            Ok(LayerNames::Layer3)
        } else if str_eq(s, "BGLAYER") {
            Ok(LayerNames::BgLayer)
        } else {
            Err(ParseError::UnknownLayerRole)
        }
    }
}

/// Whether handwriting recognition has been requested or completed, for a
/// page or for a standalone recognition file.
#[derive(Clone, Copy, Debug, PartialEq, Eq, Structural)]
pub enum RecognitionStatuses {
    NotStarted,
    Done,
    Running,
}

/// Four string-encoded coordinates of a page-anchored rectangle.
pub type Rectangle = (String, String, String, String);

/// Flat string-valued device and file metadata of the file header.
#[derive(Debug, PartialEq, Eq)]
pub struct Header {
    pub module_label: String,
    pub file_type: String,
    pub apply_equipment: String,
    pub final_operation_page: String,
    pub final_operation_layer: String,
    pub original_style: String,
    pub original_style_md5: String,
    pub device_dpi: String,
    pub soft_dpi: String,
    pub file_parse_type: String,
    pub ratta_etmd: String,
    pub app_version: String,
    pub file_recogn_type: String,
}

/// The file footer: string-valued metadata maps, with `keyword` and
/// `title` as lists of values because the same textual key may repeat
/// across the file (insertion order preserved, repeats significant).
#[derive(Debug, PartialEq, Eq)]
pub struct Footer {
    pub file: Vec<(String, String)>,
    pub cover: Vec<(String, String)>,
    pub keyword: Vec<(String, Vec<String>)>,
    pub title: Vec<(String, Vec<String>)>,
    pub style: Vec<(String, String)>,
    pub page: Vec<(String, String)>,
}

/// The cover bitmap, unresolved until explicitly loaded.
#[derive(Debug, PartialEq, Eq)]
pub struct Cover {
    pub bitmap_buffer: Option<Vec<u8>>,
}

/// A page-anchored keyword annotation.
#[derive(Debug, PartialEq, Eq)]
pub struct Keyword {
    pub keyword_seq_no: String,
    pub keyword_page: String,
    pub keyword_rect: Rectangle,
    pub keyword_rect_ori: Rectangle,
    pub keyword_site: String,
    pub keyword_len: String,
    pub keyword: String,
    pub bitmap_buffer: Option<Vec<u8>>,
}

/// A page-anchored title annotation.
#[derive(Debug, PartialEq, Eq)]
pub struct Title {
    pub title_seq_no: String,
    pub title_level: String,
    pub title_rect: Rectangle,
    pub title_rect_ori: Rectangle,
    pub title_bitmap: String,
    pub title_protocol: String,
    pub title_style: String,
    pub bitmap_buffer: Option<Vec<u8>>,
}

/// One drawing surface of a page: protocol and version strings, its role,
/// and byte buffers left unresolved until explicitly loaded.
#[derive(Debug, PartialEq, Eq)]
pub struct Layer {
    pub layer_type: String,
    pub layer_protocol: String,
    pub layer_name: LayerNames,
    pub layer_path: String,
    pub layer_bitmap: String,
    pub layer_vector_graph: String,
    pub layer_recogn: String,
    pub bitmap_buffer: Option<Vec<u8>>,
}

/// An integer pixel bounding box anchoring a recognized word.
#[derive(Clone, Copy, Debug, PartialEq, Eq, Structural)]
pub struct BoundingBox {
    pub height: u32,
    pub width: u32,
    pub x: u32,
    pub y: u32,
}

/// One recognized word, optionally anchored to a bounding box.
#[derive(Debug, PartialEq, Eq)]
pub struct Word {
    pub label: String,
    pub bounding_box: Option<BoundingBox>,
}

/// A labeled element of handwriting-recognition output.
#[derive(Debug, PartialEq, Eq)]
pub struct RecognitionElement {
    pub label: String,
    pub element_type: String,
    pub words: Vec<Word>,
}

/// One document page: exactly five layers in a fixed role set, the
/// per-layer presentation records, the paint order, recognition output,
/// and an optional raw stroke-path buffer left unresolved until loaded.
#[derive(Debug, PartialEq, Eq)]
pub struct Page {
    pub page_style: String,
    pub page_style_md5: String,
    pub layer_switch: String,
    pub main_layer: Layer,
    pub layer1: Layer,
    pub layer2: Layer,
    pub layer3: Layer,
    pub bg_layer: Layer,
    pub layer_info: Vec<LayerInfo>,
    pub layer_seq: Vec<LayerNames>,
    pub total_path: String,
    pub thumbnail_type: String,
    pub recogn_status: RecognitionStatuses,
    pub recogn_text: String,
    pub recogn_file: String,
    pub recogn_file_status: RecognitionStatuses,
    pub recognition_elements: Vec<RecognitionElement>,
    pub paragraphs: String,
    pub text: String,
    pub total_path_buffer: Option<Vec<u8>>,
}

/// A parsed document: page geometry, the binary layout constants every
/// offset and length field of the file uses, signature and version, the
/// ordered list of known layer names, header, footer, page-keyed keyword
/// and title annotations, the ordered pages, and an optional cover.
#[derive(Debug, PartialEq, Eq)]
pub struct Supernote {
    pub page_width: u32,
    pub page_height: u32,
    pub address_size: u32,
    pub length_field_size: u32,
    pub signature: String,
    pub version: u32,
    pub default_layers: Vec<String>,
    pub header: Header,
    pub footer: Footer,
    pub keywords: Vec<(String, Vec<Keyword>)>,
    pub titles: Vec<(String, Vec<Title>)>,
    pub pages: Vec<Page>,
    pub cover: Option<Cover>,
}

} // verus!
