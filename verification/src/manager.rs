//! The decisions behind one conversion or sort run: which conversion a pair
//! of format tags selects, and the bookkeeping of a batch sort — how many
//! files were written, whether the user is available, and the report naming
//! the files that still need correction.

use vstd::prelude::*;
use vstd::string::StringExecFns;

use crate::errors::TektonError;
use crate::text::str_eq;

verus! {

/// The conversion a pair of source and target format tags selects.
#[derive(Debug, PartialEq, Eq, Clone, Copy)]
pub enum SnippetMapping {
    /// Line-format text becomes a JSON table.
    SnippetToJson,
    /// A JSON table becomes line-format text.
    JsonToSnippet,
    /// A JSON table is rewritten with its keys sorted.
    JsonSort,
}

/// The message returned for a pair of tags with no defined conversion.
pub open spec fn unsupported_mapping_msg() -> Seq<char> {
    "Unsupported mapping attempted in the composer function"@
}

/// What [`composer_mapping`] decides for a pair of tags.
pub open spec fn mapping_spec(source: Seq<char>, target: Seq<char>) -> Option<SnippetMapping> {
    if source == "snippet"@ && target == "json"@ {
        Some(SnippetMapping::SnippetToJson)
    } else if source == "json"@ && target == "snippet"@ {
        Some(SnippetMapping::JsonToSnippet)
    } else if source == "json"@ && target == "tekton-sort"@ {
        Some(SnippetMapping::JsonSort)
    } else {
        None
    }
}

/// Selects the conversion for a pair of source and target format tags;
/// every other pair is refused.
pub fn composer_mapping(source: &str, target: &str) -> (r: Result<SnippetMapping, TektonError>)
    ensures
        match mapping_spec(source@, target@) {
            Some(m) => r matches Ok(rm) && rm == m,
            None => r matches Err(e) && e matches TektonError::Reason(msg) && msg@
                == unsupported_mapping_msg(),
        },
{
    if str_eq(source, "snippet") && str_eq(target, "json") {
        Ok(SnippetMapping::SnippetToJson)
    } else if str_eq(source, "json") && str_eq(target, "snippet") {
        Ok(SnippetMapping::JsonToSnippet)
    } else if str_eq(source, "json") && str_eq(target, "tekton-sort") {
        Ok(SnippetMapping::JsonSort)
    } else {
        Err(
            TektonError::Reason(
                String::from_str("Unsupported mapping attempted in the composer function"),
            ),
        )
    }
}

/// The bookkeeping of one batch sort run.
#[derive(Debug, Clone)]
pub struct SortConfigManager {
    /// How many files have been sorted and written.
    pub file_count: usize,
    /// Whether the user is available to correct records.
    pub is_interactive: bool,
    /// Whether directories are descended into.
    pub is_crawling: bool,
    /// Whether the given path turned out to be a directory.
    pub is_path_directory: bool,
    /// Whether every attempted correction succeeded.
    pub corrections_passed: bool,
}

impl SortConfigManager {
    /// A fresh manager: nothing counted, nothing failed, non-interactive.
    pub fn new(is_crawling: bool) -> (r: SortConfigManager)
        ensures
            r.file_count == 0,
            !r.is_interactive,
            r.is_crawling == is_crawling,
            !r.is_path_directory,
            r.corrections_passed,
    {
        SortConfigManager {
            file_count: 0,
            is_interactive: false,
            is_crawling,
            is_path_directory: false,
            corrections_passed: true,
        }
    }

    /// Reads the interactive flag: only the literal answer `yes` turns it
    /// on.
    pub fn set_interactive(&mut self, input: Option<String>)
        ensures
            final(self).is_interactive == (input matches Some(v) && v@ == "yes"@),
            final(self).file_count == old(self).file_count,
            final(self).is_crawling == old(self).is_crawling,
            final(self).is_path_directory == old(self).is_path_directory,
            final(self).corrections_passed == old(self).corrections_passed,
    {
        self.is_interactive = match input {
            Some(val) => str_eq(val.as_str(), "yes"),
            None => false,
        };
    }

    /// Renders the report of one batch: either that no file had errors, or
    /// the list of files that need correction and the advice to re-run
    /// interactively.
    pub fn gen_files_to_correct_string(&self, files_to_correct: Vec<String>) -> (r: Option<String>)
        ensures
            r matches Some(m) && m@ == files_msg_spec(files_to_correct.deep_view()),
    {
        let mut error_message = String::new();
        if files_to_correct.is_empty() {
            error_message.append("[Tekton]: No errors detected in the file(s).");
            proof {
                assert(error_message@ =~= files_msg_spec(files_to_correct.deep_view()));
            }
        } else {
            let ghost fv = files_to_correct.deep_view();
            error_message.append("[ Warn ]: Issues found with these files: ");
            let ghost head = error_message@;
            let mut i: usize = 0;
            proof {
                assert(fv.skip(0) =~= fv);
                assert(head + Seq::<char>::empty() =~= head);
            }
            while i < files_to_correct.len()
                invariant
                    i <= files_to_correct@.len(),
                    fv == files_to_correct.deep_view(),
                    fv.len() == files_to_correct@.len(),
                    forall|k: int| 0 <= k < fv.len() ==> fv[k] == files_to_correct@[k]@,
                    head + files_list_spec(fv) == error_message@ + files_list_spec(
                        fv.skip(i as int),
                    ),
                decreases files_to_correct@.len() - i,
            {
                let ghost prev = error_message@;
                error_message.append("\n\t");
                error_message.append(files_to_correct[i].as_str());
                i = i + 1;
                proof {
                    assert(error_message@ =~= prev + ("\n\t"@ + fv[i - 1]));
                    assert(fv.skip(i - 1).skip(1) =~= fv.skip(i as int));
                    assert(prev + ("\n\t"@ + fv[i - 1] + files_list_spec(fv.skip(i as int)))
                        =~= error_message@ + files_list_spec(fv.skip(i as int)));
                }
            }
            error_message.append(
                "\n\n[Tekton]: Run with interactive mode to be able to fix any issues in the files listed.",
            );
            proof {
                assert(fv.skip(fv.len() as int) =~= Seq::<Seq<char>>::empty());
                assert(error_message@ =~= files_msg_spec(fv));
            }
        }
        Some(error_message)
    }
}

/// The per-file lines of the correction report, each on its own indented
/// line.
pub open spec fn files_list_spec(files: Seq<Seq<char>>) -> Seq<char>
    decreases files.len(),
{
    if files.len() == 0 {
        Seq::empty()
    } else {
        "\n\t"@ + files[0] + files_list_spec(files.skip(1))
    }
}

/// The whole correction report: all clear, or the files that need fixing
/// and the advice to re-run interactively.
pub open spec fn files_msg_spec(files: Seq<Seq<char>>) -> Seq<char> {
    if files.len() == 0 {
        "[Tekton]: No errors detected in the file(s)."@
    } else {
        "[ Warn ]: Issues found with these files: "@ + files_list_spec(files)
            + "\n\n[Tekton]: Run with interactive mode to be able to fix any issues in the files listed."@
    }
}

} // verus!
