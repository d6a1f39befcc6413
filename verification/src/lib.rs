//! Compiles a declarative widget-environment document into a validated
//! configuration model: widget templates, window placements, variable
//! defaults and periodically recomputed script variables, each parser
//! carrying a contract that pins down exactly what it yields.

use vstd::prelude::*;

mod config;
mod doc;
mod error;
mod strmap;
mod value;
mod widget;
mod xml;

pub use config::{spec_parse_config, spec_parse_defs, spec_parse_script_var, spec_parse_vars,
    spec_parse_window, spec_parse_windows, spec_script_map, spec_script_map_prefix, spec_xy,
    lemma_absent_variables_block, lemma_default_var_last_wins, lemma_default_wins,
    lemma_widget_def_last_wins, lemma_window_last_wins, prim_views,
    script_var_views, var_content, ConfigView, EwwConfig, EwwWindowDefinition,
    EwwWindowDefinitionView, ScriptVar, ScriptVarView, VarsAcc};
pub use doc::{attr_views, elem_view, flat_doc_of, is_ws_char, is_ws_only, node_view, nodes_view,
    spec_build_many, spec_build_one, spec_build_root, ElemV, FlatNode, NodeV};
pub use error::{ConfigError, ErrorKind, ErrorKindView, ErrorView};
pub use strmap::{has_key, keys_unique, lemma_map_of_contains, lemma_map_of_found,
    lemma_unique_entry_count, map_of, StrMap};
pub use value::{dec_digits_ok, dec_val, is_dec_digit, parse_duration, parse_duration_spec,
    parse_i32, parse_i32_spec, parse_u64, Interval, PrimitiveValue, VarName, WindowName};
pub use widget::{WidgetDefinition, WidgetDefinitionView, WidgetUse};
pub use xml::{attrs_source, find_attr, find_elem, node_size, node_source, node_source_text,
    nodes_size, nodes_source, Pos, XmlElement, XmlNode};

verus! {

} // verus!
