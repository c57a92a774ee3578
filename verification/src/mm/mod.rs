//! Memory management: page-table images, identity-map builders and table walks.

pub mod pages;
pub mod identity;
pub mod ept;
pub mod npt;
pub mod paging;
