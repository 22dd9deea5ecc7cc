//! Objective numbers of one traced candidate.
use vstd::prelude::*;
use vstd::string::StringSliceAdditionalSpecFns;

use crate::seqs::{dedup, lemma_dedup};

verus! {

/// `vtracer::SvgFile`, the tracer's output, carried opaquely.
#[verifier::external_type_specification]
#[verifier::external_body]
pub struct ExSvgFile(vtracer::SvgFile);

/// An RGB fill color.
pub type Rgb = (u8, u8, u8);

/// The fill colors of an SVG file's paths, in path order (the collection of
/// paths the tracer produced, each taken by its color).
pub uninterp spec fn svg_path_colors(svg: vtracer::SvgFile) -> Seq<Rgb>;

/// Reads `vtracer::SvgFile::paths`, mapping each path to its color's
/// `(r, g, b)`.
#[verifier::external_body]
fn path_colors(svg: &vtracer::SvgFile) -> (c: Vec<Rgb>)
    ensures
        c@ == svg_path_colors(*svg),
{
    svg.paths.iter().map(|p| (p.color.r, p.color.g, p.color.b)).collect()
}

/// Per-candidate numbers shown in the grid and the metrics table.
#[derive(Debug, Clone, Copy, PartialEq, Eq, Structural)]
pub struct Metrics {
    /// Number of `<path>` elements (stacked layers).
    pub paths: usize,
    /// Distinct fill colors.
    pub colors: usize,
    /// Byte length of the serialized SVG.
    pub svg_bytes: usize,
    pub elapsed_ms: u64,
}

/// The number of distinct values in `s`.
pub open spec fn distinct_count<A>(s: Seq<A>) -> nat {
    s.to_set().len()
}

/// Distinct colors, in first-occurrence order.
fn distinct_colors(colors: &Vec<Rgb>) -> (d: Vec<Rgb>)
    ensures
        d@ == dedup(colors@),
{
    let mut d: Vec<Rgb> = Vec::new();
    let n = colors.len();
    let mut i: usize = 0;
    while i < n
        invariant
            n == colors@.len(),
            i <= n,
            d@ == dedup(colors@.take(i as int)),
        decreases n - i,
    {
        let c = colors[i];
        let m = d.len();
        let mut j: usize = 0;
        let mut found = false;
        while j < m
            invariant
                m == d@.len(),
                j <= m,
                found <==> exists|k: int| 0 <= k < j && d@[k] == c,
            decreases m - j,
        {
            if d[j].0 == c.0 && d[j].1 == c.1 && d[j].2 == c.2 {
                found = true;
            }
            j = j + 1;
        }
        proof {
            assert(colors@.take(i + 1).drop_last() =~= colors@.take(i as int));
            assert(colors@.take(i + 1).last() == c);
            if found {
                let k = choose|k: int| 0 <= k < m && d@[k] == c;
                assert(d@.contains(c));
            } else {
                assert(!d@.contains(c));
            }
        }
        if !found {
            d.push(c);
        }
        i = i + 1;
    }
    assert(colors@.take(n as int) =~= colors@);
    d
}

impl Metrics {
    /// Counts paths and distinct fill colors of a traced SVG, and the byte
    /// length of its text.
    pub fn from_svg(svg: &vtracer::SvgFile, svg_text: &str, elapsed_ms: u64) -> (m: Metrics)
        ensures
            m.paths == svg_path_colors(*svg).len(),
            m.colors == distinct_count(svg_path_colors(*svg)),
            m.colors <= m.paths,
            m.svg_bytes == svg_text.spec_bytes().len(),
            m.elapsed_ms == elapsed_ms,
    {
        let colors = path_colors(svg);
        let d = distinct_colors(&colors);
        proof {
            lemma_dedup(colors@);
            d@.unique_seq_to_set();
            assert(d@.to_set() =~= colors@.to_set());
        }
        Metrics {
            paths: colors.len(),
            colors: d.len(),
            svg_bytes: svg_text.as_bytes().len(),
            elapsed_ms,
        }
    }
}

} // verus!
