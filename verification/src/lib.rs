//! Verified core of a schematic viewer.

pub mod stl_sort;
pub mod double;
pub mod rtree_model;
pub mod restoring;
pub mod reporting;
pub mod rtree;
pub mod text;
pub mod geometry;
pub mod sexp;
pub mod source_edit;
pub mod readers;
pub mod connectivity;
pub mod attachment;
pub mod bounding;
pub mod change_timeline;
pub mod edit_session;
pub mod editor_history;
pub mod editor_model;
pub mod ordering;
pub mod scene;
pub mod kicad_font;
pub mod plane;
pub mod finite;
pub mod font_tables;
pub mod arcs;
pub mod text_box;
pub mod primitives;
pub mod printing;
pub mod scene_builder;
pub mod label_drawing;
pub mod symbol_drawing;
pub mod worksheet;
pub mod document_drawing;
pub mod ui_text;
pub mod theme;
pub mod hierarchy;
pub mod svg_cache;
pub mod screen;
pub mod viewer_settings;
pub mod icons;
pub mod paint;
pub mod painting;
pub mod input;
pub mod controls;
pub mod pointer;
pub mod edit_control;
pub mod group_edit;
pub mod selection;
pub mod sheet_facts;
pub mod dialogs;
pub mod sheet_commit;
pub mod reload;
pub mod search;
pub mod measuring;
pub mod native_font;
pub mod text_select;
pub mod encode;
pub mod text_drawing;
pub mod panels;
pub mod toolbar;
pub mod strip;
pub mod frame;
pub mod sequences;
pub mod editing;
pub mod finding;
pub mod guiding;
pub mod handling;
pub mod placing;
pub mod reloading;
pub mod shifting;
pub mod showing;
pub mod sketching;
pub mod stretching;
pub mod telling;
pub mod warnings;
pub mod window;
pub mod viewer;
pub mod launch;
pub mod layering;
