pub mod normal_form;
pub mod normalize;
pub mod validate;
