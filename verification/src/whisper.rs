//! The speech-to-text models that can be fetched, and where each is kept.

use vstd::prelude::*;

verus! {

/// The different kinds of Whisper models that can be downloaded.
#[derive(Debug, Clone, Copy, PartialEq, Eq, Structural)]
pub enum WhisperModel {
    WhisperTiny,
    WhisperBase,
    WhisperSmall,
    WhisperMedium,
    WhisperLarge,
}

impl Default for WhisperModel {
    fn default() -> (r: WhisperModel)
        ensures
            r == WhisperModel::WhisperBase,
    {
        WhisperModel::WhisperBase
    }
}

/// Where each model can be downloaded from.
#[derive(Debug)]
pub struct ModelUrls {
    pub whisper_tiny: String,
    pub whisper_base: String,
    pub whisper_small: String,
    pub whisper_medium: String,
    pub whisper_large: String,
}

/// What is to be done to have a model at hand.
#[derive(Debug, PartialEq, Eq)]
pub enum ModelFetch {
    /// The model is on disk at `path`.
    Ready { path: String },
    /// The model is to be downloaded to `path`.
    Download { path: String },
}

/// The mathematical value of a [`ModelFetch`].
pub ghost enum ModelFetchView {
    Ready { path: Seq<char> },
    Download { path: Seq<char> },
}

impl View for ModelFetch {
    type V = ModelFetchView;

    open spec fn view(&self) -> ModelFetchView {
        match *self {
            ModelFetch::Ready { path } => ModelFetchView::Ready { path: path@ },
            ModelFetch::Download { path } => ModelFetchView::Download { path: path@ },
        }
    }
}

/// `dir` and `name` as one path: a separator is put between them unless
/// `dir` is empty or ends with one.
pub open spec fn joined(dir: Seq<char>, name: Seq<char>) -> Seq<char> {
    if dir.len() == 0 || dir.last() == '/' {
        dir + name
    } else {
        dir + seq!['/'] + name
    }
}

impl WhisperModel {
    /// The name under which the model is kept and listed.
    pub open spec fn identifier(self) -> Seq<char> {
        match self {
            WhisperModel::WhisperTiny => "whisper_tiny"@,
            WhisperModel::WhisperBase => "whisper_base"@,
            WhisperModel::WhisperSmall => "whisper_small"@,
            WhisperModel::WhisperMedium => "whisper_medium"@,
            WhisperModel::WhisperLarge => "whisper_large"@,
        }
    }

    /// The path of the model's file below the directory `dir`.
    pub open spec fn path_in(self, dir: Seq<char>) -> Seq<char> {
        joined(dir, self.identifier() + ".bin"@)
    }

    /// The address that `urls` lists for the model.
    pub open spec fn listed_url(self, urls: ModelUrls) -> Seq<char> {
        match self {
            WhisperModel::WhisperTiny => urls.whisper_tiny@,
            WhisperModel::WhisperBase => urls.whisper_base@,
            WhisperModel::WhisperSmall => urls.whisper_small@,
            WhisperModel::WhisperMedium => urls.whisper_medium@,
            WhisperModel::WhisperLarge => urls.whisper_large@,
        }
    }

    /// The name under which the model is kept and listed.
    pub fn to_identifier(&self) -> (r: &'static str)
        ensures
            r@ == self.identifier(),
    {
        match self {
            WhisperModel::WhisperTiny => "whisper_tiny",
            WhisperModel::WhisperBase => "whisper_base",
            WhisperModel::WhisperSmall => "whisper_small",
            WhisperModel::WhisperMedium => "whisper_medium",
            WhisperModel::WhisperLarge => "whisper_large",
        }
    }

    /// The path of the model's file below the directory `dir`.
    pub fn path(&self, dir: &str) -> (r: String)
        ensures
            r@ == self.path_in(dir@),
    {
        let cs = crate::text::chars_of(dir);
        let mut out = String::from_str(dir);
        if cs.len() > 0 && cs[cs.len() - 1] != '/' {
            out.push('/');
        }
        out.append(self.to_identifier());
        out.append(".bin");
        assert(out@ =~= self.path_in(dir@));
        out
    }

    /// The address from which the model is downloaded.
    pub fn url<'a>(&self, urls: &'a ModelUrls) -> (r: &'a String)
        ensures
            r@ == self.listed_url(*urls),
    {
        match self {
            WhisperModel::WhisperTiny => &urls.whisper_tiny,
            WhisperModel::WhisperBase => &urls.whisper_base,
            WhisperModel::WhisperSmall => &urls.whisper_small,
            WhisperModel::WhisperMedium => &urls.whisper_medium,
            WhisperModel::WhisperLarge => &urls.whisper_large,
        }
    }

    /// Decides how to have the model at hand: it is used where it lies if
    /// its file exists (`on_disk`) below `dir`, and is downloaded there if
    /// not.
    pub fn get_or_download(&self, dir: &str, on_disk: bool) -> (r: ModelFetch)
        ensures
            r@ == (if on_disk {
                ModelFetchView::Ready { path: self.path_in(dir@) }
            } else {
                ModelFetchView::Download { path: self.path_in(dir@) }
            }),
    {
        let path = self.path(dir);
        if on_disk {
            ModelFetch::Ready { path }
        } else {
            ModelFetch::Download { path }
        }
    }
}

} // verus!
