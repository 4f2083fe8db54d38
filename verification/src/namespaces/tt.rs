pub mod common_xsd;
pub mod onvif_xsd;
