use vstd::prelude::*;

verus! {

/// The orientation a random photo is asked to have.
#[derive(Clone, Copy, Debug, PartialEq, Eq, Hash, Structural)]
pub enum Orientation {
    Landscape,
    Portrait,
    Squarish,
}

/// The image format a photo is delivered in.
#[derive(Clone, Copy, Debug, PartialEq, Eq, Hash, Structural)]
pub enum ImgixFormat {
    Png,
    Jpg,
    Json,
    WebP,
}

/// How a photo is fitted to the size asked for.
#[derive(Clone, Copy, Debug, PartialEq, Eq, Hash, Structural)]
pub enum ImgixFitMode {
    Clamp,
    Clip,
    Crop,
    FaceArea,
    Fill,
    FillMax,
    Max,
    Min,
    Scale,
}

/// How a downloaded photo is to be processed: format, size, quality, fit
/// and aspect ratio (such as `"3:2"`); each is left to the service when
/// absent.
#[derive(Clone, Debug, PartialEq, Eq, Hash)]
pub struct ImgixParams {
    pub format: Option<ImgixFormat>,
    pub width: Option<u32>,
    pub height: Option<u32>,
    pub quality: Option<u32>,
    pub fit_mode: Option<ImgixFitMode>,
    pub aspect_ratio: Option<String>,
}

impl Default for ImgixParams {
    fn default() -> (r: Self)
        ensures
            r.format is None,
            r.width is None,
            r.height is None,
            r.quality is None,
            r.fit_mode is None,
            r.aspect_ratio is None,
    {
        ImgixParams {
            format: None,
            width: None,
            height: None,
            quality: None,
            fit_mode: None,
            aspect_ratio: None,
        }
    }
}

/// What a random photo is drawn from (collections, topics, a user), its
/// orientation, and how it is to be processed once chosen.
#[derive(Clone, Debug, PartialEq, Eq, Hash)]
pub struct GetRandomPhotoOptions {
    pub collections: Option<String>,
    pub topics: Option<String>,
    pub username: Option<String>,
    pub orientation: Option<Orientation>,
    pub imgix_params: ImgixParams,
}

impl Default for GetRandomPhotoOptions {
    fn default() -> (r: Self)
        ensures
            r.collections is None,
            r.topics is None,
            r.username is None,
            r.orientation is None,
            r.imgix_params.format is None,
            r.imgix_params.width is None,
            r.imgix_params.height is None,
            r.imgix_params.quality is None,
            r.imgix_params.fit_mode is None,
            r.imgix_params.aspect_ratio is None,
    {
        GetRandomPhotoOptions {
            collections: None,
            topics: None,
            username: None,
            orientation: None,
            imgix_params: ImgixParams::default(),
        }
    }
}

} // verus!
