//! Verified core of a speech-time-centred presentation workbench: the data
//! model (projects, pages, elements, strokes, script, rehearsals), the
//! timeline that maps a moment of speech to the complete presentation state,
//! and the decisions of the storage layer and the application shell.
pub mod camera;
pub mod cli;
pub mod demo;
pub mod model;
pub mod scalar;
pub mod session;
pub mod shell;
pub mod sort;
pub mod storage;
pub mod text;
pub mod timeline;
pub mod visibility;
