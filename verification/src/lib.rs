//! Library for working with RMS map scripts: a lexer that splits a script
//! into position-tagged lexical units from which the source can be rebuilt
//! exactly, and an annotator that marks comment regions and counts matched
//! comment-delimiter pairs.

pub mod annotater;
pub mod html_writer;
pub mod lexer;
pub mod rms_data;
