//! A meeting recorder that has to show its work.
//!
//! A meeting is a sequence of numbered events (`session`, over the model in `session_model`).
//! Summaries are made from what had happened up to one of those numbers: the evidence is
//! gathered and cut to size (`evidence`), a planner drafts blocks (`agent`, `generation`), and
//! every citation is held against the evidence before a block may stand in the document
//! (`citation`). The document becomes a page (`render`) in which text cannot become markup.
//!
//! What holds of all of this together is stated in the modules whose names end in `_laws`, and
//! at the end of the modules that it concerns. Of a meeting: `session_laws`, `meeting_laws`,
//! `recording_laws`. Of what is sent and what comes of it: `evidence_laws`, `prompt_laws`,
//! `citation_laws`, `summary_laws`. Of the page: `render_laws`, `page_laws`, `content_laws`,
//! `order_laws`, `escape_laws`. Of the rest: `text_laws`, `address_laws`, `system_laws`,
//! `course_laws`.

pub mod address_laws;
pub mod agent;
pub mod audio;
pub mod citation;
pub mod citation_laws;
pub mod cli_planner;
pub mod clock;
pub mod config;
pub mod content_laws;
pub mod course_laws;
pub mod cursor;
pub mod document;
pub mod events;
pub mod escape_laws;
pub mod evidence;
pub mod evidence_laws;
pub mod fixture;
pub mod fixture_source;
pub mod generation;
pub mod loopback;
pub mod meeting_laws;
pub mod model;
pub mod order_laws;
pub mod page_laws;
pub mod parts;
pub mod prompt_laws;
pub mod reading;
pub mod recording_laws;
pub mod render;
pub mod render_laws;
pub mod schema;
pub mod session;
pub mod session_laws;
pub mod session_model;
pub mod sink;
pub mod store;
pub mod summary;
pub mod summary_laws;
pub mod system_laws;
pub mod text;
pub mod text_laws;
