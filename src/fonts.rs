//! The font table: registration of font files and the queries on it.
use vstd::prelude::*;
use std::sync::Arc;
use crate::registry::{Registry, has_handle, handles};

verus! {

/// A loaded fontdue face, carried as an opaque value.
#[verifier::external_type_specification]
#[verifier::external_body]
pub struct ExFont(fontdue::Font);

/// Whether fontdue reads `data` as a usable font file.
pub uninterp spec fn font_parses(data: Seq<u8>) -> bool;

/// Relies on fontdue::Font::from_bytes with default settings, which either
/// loads the face that the bytes hold or reports an error; which of the two
/// depends on the bytes alone.
#[verifier::external_body]
fn parse_font(data: &[u8]) -> (r: Option<fontdue::Font>)
    ensures
        r is Some == font_parses(data@),
{
    fontdue::Font::from_bytes(data, fontdue::FontSettings::default()).ok()
}

/// Loads a font from the bytes of a font file and stores it under a fresh
/// handle, which it returns; -1 when the bytes hold no usable font or the
/// handles are exhausted, and then the table is unchanged.
pub fn register_font(fonts: &mut Registry<Arc<fontdue::Font>>, data: &[u8]) -> (h: i32)
    requires
        old(fonts).wf(),
    ensures
        final(fonts).wf(),
        final(fonts).next() == if h == -1 { old(fonts).next() } else { old(fonts).next() + 1 },
        h == -1 <==> !font_parses(data@) || old(fonts).next() == i32::MAX,
        h == -1 ==> final(fonts).entries() == old(fonts).entries(),
        h != -1 ==> h == old(fonts).next() && final(fonts).entries().len() == old(fonts).entries().len() + 1
            && final(fonts).entries().drop_last() == old(fonts).entries() && final(fonts).entries().last().0 == h,
{
    match parse_font(data) {
        Some(font) => {
            let ghost before = fonts.entries();
            let h = fonts.insert(Arc::new(font));
            if h != -1 {
                assert(fonts.entries().drop_last() =~= before);
            }
            h
        },
        None => -1,
    }
}

/// Removes the font under `handle`: 0 when it was there, -1 otherwise.
pub fn unload_font<T>(fonts: &mut Registry<T>, handle: i32) -> (r: i32)
    requires
        old(fonts).wf(),
    ensures
        final(fonts).wf(),
        r == if has_handle(old(fonts).entries(), handle) { 0i32 } else { -1i32 },
        !has_handle(final(fonts).entries(), handle),
        final(fonts).next() == old(fonts).next(),
        !has_handle(old(fonts).entries(), handle) ==> final(fonts).entries() == old(fonts).entries(),
{
    if fonts.remove(handle) {
        0
    } else {
        -1
    }
}

/// Handle 1, the implicit default font, when it is loaded; -1 otherwise.
pub fn default_font<T>(fonts: &Registry<T>) -> (r: i32)
    requires
        fonts.wf(),
    ensures
        r == if has_handle(fonts.entries(), 1) { 1i32 } else { -1i32 },
{
    if fonts.contains(1) {
        1
    } else {
        -1
    }
}

/// How many fonts are loaded.
pub fn font_count<T>(fonts: &Registry<T>) -> (r: i32)
    requires
        fonts.wf(),
    ensures
        r == fonts.entries().len(),
{
    fonts.len() as i32
}

/// The handles of the loaded fonts in increasing order, at most `max_count` of
/// them; none when `max_count` is not positive.
pub fn font_ids<T>(fonts: &Registry<T>, max_count: i32) -> (r: Vec<i32>)
    requires
        fonts.wf(),
    ensures
        max_count <= 0 ==> r@.len() == 0,
        0 < max_count ==> r@ == handles(fonts.entries()).take(
            if max_count < fonts.entries().len() { max_count as int } else { fonts.entries().len() as int },
        ),
        forall|i: int, j: int| 0 <= i < j < r@.len() ==> r@[i] < r@[j],
{
    if max_count <= 0 {
        return Vec::new();
    }
    fonts.ids(max_count as usize)
}

} // verus!
