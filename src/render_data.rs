//! What the script picker shows: the scripts found in a directory, and the
//! one chosen to run.
use vstd::prelude::*;

verus! {

/// A script file: its name, its path, and its text.
#[derive(Debug, PartialEq, Default)]
pub struct UIScript {
    pub file_name: String,
    pub full_path: String,
    pub content: String,
}

impl UIScript {
    /// A copy of this script.
    pub fn duplicate(&self) -> (r: Self)
        ensures
            r == *self,
    {
        UIScript {
            file_name: self.file_name.clone(),
            full_path: self.full_path.clone(),
            content: self.content.clone(),
        }
    }
}

/// The picker's state: the scripts of `target_directory`, and the chosen
/// one.
#[derive(Debug, Default)]
pub struct ExampleBlockRenderData {
    pub scripts: Vec<UIScript>,
    pub target_directory: String,
    pub active_script: Option<UIScript>,
}

impl ExampleBlockRenderData {
    /// After the directory was read again: the chosen script is replaced by
    /// the first script found under the same path, so that it carries the
    /// text now on disk. Without such a script, or without a chosen one,
    /// nothing changes.
    pub fn refresh_active_script(&mut self)
        ensures
            final(self).scripts == old(self).scripts,
            final(self).target_directory == old(self).target_directory,
            match old(self).active_script {
                None => final(self).active_script == old(self).active_script,
                Some(a) => if exists|i: int|
                    0 <= i < old(self).scripts@.len() && (#[trigger] old(self).scripts@[i]).full_path@
                        == a.full_path@ {
                    exists|i: int|
                        0 <= i < old(self).scripts@.len() && (#[trigger] old(self).scripts@[i]).full_path@
                            == a.full_path@ && (forall|j: int|
                            0 <= j < i ==> (#[trigger] old(self).scripts@[j]).full_path@
                                != a.full_path@) && final(self).active_script == Some(
                            old(self).scripts@[i],
                        )
                } else {
                    final(self).active_script == old(self).active_script
                },
            },
    {
        let found = match &self.active_script {
            None => {
                return;
            },
            Some(active) => {
                let mut i: usize = 0;
                while i < self.scripts.len() && self.scripts[i].full_path != active.full_path
                    invariant
                        i <= self.scripts@.len(),
                        forall|j: int|
                            0 <= j < i ==> (#[trigger] self.scripts@[j]).full_path@
                                != active.full_path@,
                    decreases self.scripts@.len() - i,
                {
                    i = i + 1;
                }
                if i < self.scripts.len() {
                    Some(self.scripts[i].duplicate())
                } else {
                    None
                }
            },
        };
        if let Some(s) = found {
            self.active_script = Some(s);
        }
    }
}

} // verus!
