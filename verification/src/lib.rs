pub mod document;
pub mod gcode_desc;
pub mod gcode_writer;
pub mod length;
pub mod number;
pub mod path_data;
pub mod svgx_document;
pub mod svgx_element;
pub mod text;
pub mod transform;
pub mod view_box;
