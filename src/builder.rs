//! Renderer configuration: font size and source, character subset and
//! initial buffer capacity, gathered with a builder.
use crate::font::{BitmapFont, FontError};
use crate::renderer::{Renderer, Vertex};
use vstd::prelude::*;
use vstd::slice::slice_to_vec;

verus! {

/// Glyph height used when none is given.
pub const DEFAULT_FONT_SIZE: u8 = 16;

/// Initial buffer capacity, in vertices, used when none is given.
pub const DEFAULT_BUFFER_SIZE: usize = 128;

/// General error type returned by the library.
#[derive(Debug)]
pub enum RendererError {
    /// Font loading error
    FontError(FontError),
}

/// Where the font of a build comes from.
#[derive(Debug, Clone, Copy)]
pub enum FontSource<'a> {
    /// A font file, by path
    File(&'a str),
    /// The bytes of a font file
    Memory(&'a [u8]),
    /// No source was given
    Missing,
}

/// Text renderer builder. Allows to set rendering options using builder
/// pattern. `C` is the type of a text colour.
pub struct RendererBuilder<C> {
    font_size: u8,
    font_path: Option<String>,
    font_data: Option<Vec<u8>>,
    outline_width: Option<u8>,
    outline_color: Option<C>,
    buffer_size: usize,
    chars: Option<Vec<char>>,
}

/// Create a new text renderer builder. Alias for `RendererBuilder::new`.
pub fn new<C: Copy>() -> (r: RendererBuilder<C>)
    ensures
        r.is_default(),
{
    RendererBuilder::new()
}

impl<C: Copy> RendererBuilder<C> {
    pub closed spec fn spec_font_size(&self) -> u8 {
        self.font_size
    }

    pub closed spec fn spec_font_path(&self) -> Option<Seq<char>> {
        match self.font_path {
            Some(p) => Some(p@),
            None => None,
        }
    }

    pub closed spec fn spec_font_data(&self) -> Option<Seq<u8>> {
        match self.font_data {
            Some(d) => Some(d@),
            None => None,
        }
    }

    pub closed spec fn spec_outline(&self) -> Option<(u8, C)> {
        match (self.outline_width, self.outline_color) {
            (Some(w), Some(c)) => Some((w, c)),
            _ => None,
        }
    }

    pub closed spec fn spec_buffer_size(&self) -> usize {
        self.buffer_size
    }

    pub closed spec fn spec_chars(&self) -> Option<Seq<char>> {
        match self.chars {
            Some(c) => Some(c@),
            None => None,
        }
    }

    /// The settings a new builder starts from.
    pub open spec fn is_default(&self) -> bool {
        &&& self.spec_font_size() == DEFAULT_FONT_SIZE
        &&& self.spec_font_path() is None
        &&& self.spec_font_data() is None
        &&& self.spec_outline() is None
        &&& self.spec_buffer_size() == DEFAULT_BUFFER_SIZE
        &&& self.spec_chars() is None
    }

    /// Create a new text renderer builder: 16-pixel glyphs, no font source
    /// yet, every character of the font, buffers of 128 vertices.
    pub fn new() -> (r: Self)
        ensures
            r.is_default(),
    {
        RendererBuilder {
            font_size: DEFAULT_FONT_SIZE,
            font_path: None,
            font_data: None,
            outline_width: None,
            outline_color: None,
            buffer_size: DEFAULT_BUFFER_SIZE,
            chars: None,
        }
    }

    /// Specify custom size.
    pub fn with_size(self, size: u8) -> (r: Self)
        ensures
            r.spec_font_size() == size,
            r.spec_font_path() == self.spec_font_path(),
            r.spec_font_data() == self.spec_font_data(),
            r.spec_outline() == self.spec_outline(),
            r.spec_buffer_size() == self.spec_buffer_size(),
            r.spec_chars() == self.spec_chars(),
    {
        RendererBuilder { font_size: size, ..self }
    }

    /// Specify custom font by path.
    pub fn with_font(self, path: &str) -> (r: Self)
        ensures
            r.spec_font_size() == self.spec_font_size(),
            r.spec_font_path() == Some(path@),
            r.spec_font_data() == self.spec_font_data(),
            r.spec_outline() == self.spec_outline(),
            r.spec_buffer_size() == self.spec_buffer_size(),
            r.spec_chars() == self.spec_chars(),
    {
        RendererBuilder { font_path: Some(path.to_owned()), ..self }
    }

    /// Pass raw font data.
    pub fn with_font_data(self, data: &[u8]) -> (r: Self)
        ensures
            r.spec_font_size() == self.spec_font_size(),
            r.spec_font_path() == self.spec_font_path(),
            r.spec_font_data() == Some(data@),
            r.spec_outline() == self.spec_outline(),
            r.spec_buffer_size() == self.spec_buffer_size(),
            r.spec_chars() == self.spec_chars(),
    {
        RendererBuilder { font_data: Some(slice_to_vec(data)), ..self }
    }

    /// Specify outline width and color (kept, not drawn yet).
    pub fn with_outline(self, width: u8, color: C) -> (r: Self)
        ensures
            r.spec_font_size() == self.spec_font_size(),
            r.spec_font_path() == self.spec_font_path(),
            r.spec_font_data() == self.spec_font_data(),
            r.spec_outline() == Some((width, color)),
            r.spec_buffer_size() == self.spec_buffer_size(),
            r.spec_chars() == self.spec_chars(),
    {
        RendererBuilder { outline_width: Some(width), outline_color: Some(color), ..self }
    }

    /// Specify custom initial buffer size.
    pub fn with_buffer_size(self, size: usize) -> (r: Self)
        ensures
            r.spec_font_size() == self.spec_font_size(),
            r.spec_font_path() == self.spec_font_path(),
            r.spec_font_data() == self.spec_font_data(),
            r.spec_outline() == self.spec_outline(),
            r.spec_buffer_size() == size,
            r.spec_chars() == self.spec_chars(),
    {
        RendererBuilder { buffer_size: size, ..self }
    }

    /// Make available only provided characters in font texture instead of
    /// loading all existing from the font face.
    pub fn with_chars(self, chars: &[char]) -> (r: Self)
        ensures
            r.spec_font_size() == self.spec_font_size(),
            r.spec_font_path() == self.spec_font_path(),
            r.spec_font_data() == self.spec_font_data(),
            r.spec_outline() == self.spec_outline(),
            r.spec_buffer_size() == self.spec_buffer_size(),
            r.spec_chars() == Some(chars@),
    {
        RendererBuilder { chars: Some(slice_to_vec(chars)), ..self }
    }

    /// The initial capacity, in vertices, of the GPU buffers.
    pub fn buffer_size(&self) -> (r: usize)
        ensures
            r == self.spec_buffer_size(),
    {
        self.buffer_size
    }

    /// The font source a build reads: the path if one was given, else the
    /// font bytes if they were given, else none.
    pub fn font_source(&self) -> (r: FontSource<'_>)
        ensures
            match self.spec_font_path() {
                Some(p) => r matches FontSource::File(q) && q@ == p,
                None => match self.spec_font_data() {
                    Some(d) => r matches FontSource::Memory(b) && b@ == d,
                    None => r is Missing,
                },
            },
    {
        match &self.font_path {
            Some(path) => FontSource::File(path.as_str()),
            None => match &self.font_data {
                Some(data) => FontSource::Memory(data.as_slice()),
                None => FontSource::Missing,
            },
        }
    }

    /// Build a new text renderer instance using current settings: the atlas
    /// comes from the font path if one was given, else from the font bytes;
    /// with neither, the build fails with `NoFont`.
    pub fn build<W: Copy>(self) -> (r: Result<Renderer<C, W>, RendererError>)
        ensures
            (self.spec_font_path() is None && self.spec_font_data() is None) <==> (r matches Err(
                RendererError::FontError(FontError::NoFont),
            )),
            self.spec_chars() matches Some(cs) ==> (cs.len() == 0 && (self.spec_font_path() is Some
                || self.spec_font_data() is Some) <==> r matches Err(RendererError::FontError(FontError::EmptyFont))),
            r matches Ok(rd) ==> {
                &&& rd.wf()
                &&& rd.vertices() == Seq::<Vertex<C, W>>::empty()
                &&& rd.indices() == Seq::<u32>::empty()
                &&& (self.spec_chars() matches Some(cs) ==> forall|c: char|
                    #[trigger] rd.font().glyph_of(c) is Some <==> cs.contains(c))
            },
    {
        let chars = match &self.chars {
            Some(cs) => Some(cs.as_slice()),
            None => None,
        };
        let font = match self.font_source() {
            FontSource::File(path) => BitmapFont::from_path(path, self.font_size, chars),
            FontSource::Memory(data) => BitmapFont::from_bytes(data, self.font_size, chars),
            FontSource::Missing => Err(FontError::NoFont),
        };
        match font {
            Ok(f) => Ok(Renderer::from_font(f)),
            Err(e) => Err(RendererError::FontError(e)),
        }
    }
}

} // verus!
