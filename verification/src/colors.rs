//! Colours, and the named colours the game uses.

use vstd::prelude::*;

verus! {

/// A colour as red, green and blue components.
#[derive(Clone, Copy, Debug, PartialEq, Eq, Structural)]
pub struct Color {
    pub r: u8,
    pub g: u8,
    pub b: u8,
}

impl Color {
    /// The colour with the given components.
    pub open spec fn rgb(r: u8, g: u8, b: u8) -> Color {
        Color { r, g, b }
    }

    /// Builds a colour from its components.
    pub fn new(r: u8, g: u8, b: u8) -> (c: Color)
        ensures
            c == Color::rgb(r, g, b),
    {
        Color { r, g, b }
    }
}

/// Black.
pub open spec fn spec_black() -> Color {
    Color::rgb(0, 0, 0)
}

/// Black.
#[verifier::when_used_as_spec(spec_black)]
pub fn black() -> (c: Color)
    ensures
        c == spec_black(),
{
    Color::new(0, 0, 0)
}

/// Light grey.
pub open spec fn spec_light_grey() -> Color {
    Color::rgb(159, 159, 159)
}

/// Light grey.
#[verifier::when_used_as_spec(spec_light_grey)]
pub fn light_grey() -> (c: Color)
    ensures
        c == spec_light_grey(),
{
    Color::new(159, 159, 159)
}

/// White.
pub open spec fn spec_white() -> Color {
    Color::rgb(255, 255, 255)
}

/// White.
#[verifier::when_used_as_spec(spec_white)]
pub fn white() -> (c: Color)
    ensures
        c == spec_white(),
{
    Color::new(255, 255, 255)
}

/// Desaturated green, the colour of orcs.
pub open spec fn spec_desaturated_green() -> Color {
    Color::rgb(63, 127, 63)
}

/// Desaturated green, the colour of orcs.
#[verifier::when_used_as_spec(spec_desaturated_green)]
pub fn desaturated_green() -> (c: Color)
    ensures
        c == spec_desaturated_green(),
{
    Color::new(63, 127, 63)
}

/// Light red.
pub open spec fn spec_light_red() -> Color {
    Color::rgb(255, 63, 63)
}

/// Light red.
#[verifier::when_used_as_spec(spec_light_red)]
pub fn light_red() -> (c: Color)
    ensures
        c == spec_light_red(),
{
    Color::new(255, 63, 63)
}

/// Light yellow.
pub open spec fn spec_light_yellow() -> Color {
    Color::rgb(255, 255, 63)
}

/// Light yellow.
#[verifier::when_used_as_spec(spec_light_yellow)]
pub fn light_yellow() -> (c: Color)
    ensures
        c == spec_light_yellow(),
{
    Color::new(255, 255, 63)
}

/// Light green.
pub open spec fn spec_light_green() -> Color {
    Color::rgb(63, 255, 63)
}

/// Light green.
#[verifier::when_used_as_spec(spec_light_green)]
pub fn light_green() -> (c: Color)
    ensures
        c == spec_light_green(),
{
    Color::new(63, 255, 63)
}

/// Light cyan.
pub open spec fn spec_light_cyan() -> Color {
    Color::rgb(63, 255, 255)
}

/// Light cyan.
#[verifier::when_used_as_spec(spec_light_cyan)]
pub fn light_cyan() -> (c: Color)
    ensures
        c == spec_light_cyan(),
{
    Color::new(63, 255, 255)
}

/// Light blue.
pub open spec fn spec_light_blue() -> Color {
    Color::rgb(63, 63, 255)
}

/// Light blue.
#[verifier::when_used_as_spec(spec_light_blue)]
pub fn light_blue() -> (c: Color)
    ensures
        c == spec_light_blue(),
{
    Color::new(63, 63, 255)
}

/// Light violet.
pub open spec fn spec_light_violet() -> Color {
    Color::rgb(159, 63, 255)
}

/// Light violet.
#[verifier::when_used_as_spec(spec_light_violet)]
pub fn light_violet() -> (c: Color)
    ensures
        c == spec_light_violet(),
{
    Color::new(159, 63, 255)
}

/// Light purple.
pub open spec fn spec_light_purple() -> Color {
    Color::rgb(207, 63, 255)
}

/// Light purple.
#[verifier::when_used_as_spec(spec_light_purple)]
pub fn light_purple() -> (c: Color)
    ensures
        c == spec_light_purple(),
{
    Color::new(207, 63, 255)
}

/// Red.
pub open spec fn spec_red() -> Color {
    Color::rgb(255, 0, 0)
}

/// Red.
#[verifier::when_used_as_spec(spec_red)]
pub fn red() -> (c: Color)
    ensures
        c == spec_red(),
{
    Color::new(255, 0, 0)
}

/// Orange.
pub open spec fn spec_orange() -> Color {
    Color::rgb(255, 127, 0)
}

/// Orange.
#[verifier::when_used_as_spec(spec_orange)]
pub fn orange() -> (c: Color)
    ensures
        c == spec_orange(),
{
    Color::new(255, 127, 0)
}

/// Yellow.
pub open spec fn spec_yellow() -> Color {
    Color::rgb(255, 255, 0)
}

/// Yellow.
#[verifier::when_used_as_spec(spec_yellow)]
pub fn yellow() -> (c: Color)
    ensures
        c == spec_yellow(),
{
    Color::new(255, 255, 0)
}

/// Green.
pub open spec fn spec_green() -> Color {
    Color::rgb(0, 255, 0)
}

/// Green.
#[verifier::when_used_as_spec(spec_green)]
pub fn green() -> (c: Color)
    ensures
        c == spec_green(),
{
    Color::new(0, 255, 0)
}

/// Sky blue.
pub open spec fn spec_sky() -> Color {
    Color::rgb(0, 191, 255)
}

/// Sky blue.
#[verifier::when_used_as_spec(spec_sky)]
pub fn sky() -> (c: Color)
    ensures
        c == spec_sky(),
{
    Color::new(0, 191, 255)
}

/// Violet.
pub open spec fn spec_violet() -> Color {
    Color::rgb(127, 0, 255)
}

/// Violet.
#[verifier::when_used_as_spec(spec_violet)]
pub fn violet() -> (c: Color)
    ensures
        c == spec_violet(),
{
    Color::new(127, 0, 255)
}

/// Dark red, the colour of corpses.
pub open spec fn spec_dark_red() -> Color {
    Color::rgb(191, 0, 0)
}

/// Dark red, the colour of corpses.
#[verifier::when_used_as_spec(spec_dark_red)]
pub fn dark_red() -> (c: Color)
    ensures
        c == spec_dark_red(),
{
    Color::new(191, 0, 0)
}

/// Darker red.
pub open spec fn spec_darker_red() -> Color {
    Color::rgb(127, 0, 0)
}

/// Darker red.
#[verifier::when_used_as_spec(spec_darker_red)]
pub fn darker_red() -> (c: Color)
    ensures
        c == spec_darker_red(),
{
    Color::new(127, 0, 0)
}

/// Darker orange.
pub open spec fn spec_darker_orange() -> Color {
    Color::rgb(127, 63, 0)
}

/// Darker orange.
#[verifier::when_used_as_spec(spec_darker_orange)]
pub fn darker_orange() -> (c: Color)
    ensures
        c == spec_darker_orange(),
{
    Color::new(127, 63, 0)
}

/// Darker green, the colour of trolls.
pub open spec fn spec_darker_green() -> Color {
    Color::rgb(0, 127, 0)
}

/// Darker green, the colour of trolls.
#[verifier::when_used_as_spec(spec_darker_green)]
pub fn darker_green() -> (c: Color)
    ensures
        c == spec_darker_green(),
{
    Color::new(0, 127, 0)
}

/// A wall outside the field of view.
pub open spec fn spec_dark_wall() -> Color {
    Color::rgb(0, 0, 100)
}

/// A wall outside the field of view.
#[verifier::when_used_as_spec(spec_dark_wall)]
pub fn dark_wall() -> (c: Color)
    ensures
        c == spec_dark_wall(),
{
    Color::new(0, 0, 100)
}

/// A wall inside the field of view.
pub open spec fn spec_light_wall() -> Color {
    Color::rgb(130, 110, 50)
}

/// A wall inside the field of view.
#[verifier::when_used_as_spec(spec_light_wall)]
pub fn light_wall() -> (c: Color)
    ensures
        c == spec_light_wall(),
{
    Color::new(130, 110, 50)
}

/// Floor outside the field of view.
pub open spec fn spec_dark_ground() -> Color {
    Color::rgb(50, 50, 150)
}

/// Floor outside the field of view.
#[verifier::when_used_as_spec(spec_dark_ground)]
pub fn dark_ground() -> (c: Color)
    ensures
        c == spec_dark_ground(),
{
    Color::new(50, 50, 150)
}

/// Floor inside the field of view.
pub open spec fn spec_light_ground() -> Color {
    Color::rgb(200, 180, 50)
}

/// Floor inside the field of view.
#[verifier::when_used_as_spec(spec_light_ground)]
pub fn light_ground() -> (c: Color)
    ensures
        c == spec_light_ground(),
{
    Color::new(200, 180, 50)
}

} // verus!
