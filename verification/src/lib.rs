//! C/Buoy language support: the preprocessor for C/Buoy source files, the
//! filesystems it reads from, compiler settings, the data and run-control
//! decisions of the Jib computer that its tools share, and what the user
//! interface of the visual Jib computer holds and decides.
pub mod code_window;
pub mod comments;
pub mod compiler;
pub mod computer;
pub mod definitions;
pub mod errors;
pub mod filesystem;
pub mod memory_view;
pub mod numbers;
pub mod paths;
pub mod patterns;
pub mod preprocessor;
pub mod text;
pub mod visual;

pub use code_window::{CodeWindow, CodeWindowType, TokenErrorContext, TokenSpan};
pub use compiler::{CodeGenerationOptions, Compiler, CompilerArguments, ProgramType};
pub use computer::{
    ApplicationCategory, BuildDateTime, ComputerPram, JibApplication, JibCode, JibOsImage,
    RunControl, StopMode,
};
pub use definitions::Definitions;
pub use errors::{FilesystemError, PreprocessorError, PreprocessorLine, PreprocessorLocation};
pub use filesystem::{
    FilesystemLayer, OverlayFilesystem, PreprocessorFilesystem, RealFilesystem, VirtualFilesystem,
};
pub use memory_view::MemoryViewWindow;
pub use preprocessor::{
    preprocess_code_as_file, preprocess_code_std, preprocess_code_with_fs, preprocess_step, IfState,
    PreprocessStep, PreprocessorOutput, PreprocessorState,
};
pub use visual::{ProgramCounterView, ThreadToUi, UiToThread, VisualJib};
