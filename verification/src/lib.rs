//! Verified core of a terminal chart engine: colors, palettes, terminal
//! capabilities, sub-pixel buffers and the renderers that turn them into
//! ANSI text, plus the integer and string logic behind the chart layouts.

pub mod text;
pub mod color;
pub mod capabilities;
pub mod palette;
pub mod heat_ramp;
pub mod story;
pub mod chart;
pub mod ansi;
pub mod pixel_buffer;
pub mod halfblocks;
pub mod vertical_blocks;
pub mod braille;
pub mod probe;
pub mod grouping;
pub mod geometry;
pub mod dataframe;
pub mod table;
pub mod errors;
pub mod csv_text;
pub mod paint;
pub mod graphics;
pub mod sankey;
