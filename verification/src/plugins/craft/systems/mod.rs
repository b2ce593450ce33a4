pub mod crafting;
