//! The skills that an agent can read up on.

use crate::text::{push_text, strs};
use crate::words::{join, joined, pad_right, padded_right, quote, quoted};
use vstd::prelude::*;

verus! {

broadcast use vstd::string::group_string_axioms;

/// A skill.
#[derive(Debug)]
pub struct Skill {
    pub name: String,
    pub description: String,
    /// For all projects.
    pub global: bool,
    pub instructions: String,
}

/// What is asked of the skills.
#[derive(Debug)]
pub enum SkillCommand {
    List,
    Show { name: String },
}

/// The line on a skill.
pub open spec fn skill_line(s: Skill) -> Seq<char> {
    pad_right(s.name@, 20) + " "@ + s.description@ + (if s.global {
        " (global)"@
    } else {
        ""@
    })
}

/// Texts in quotes.
pub open spec fn all_quoted(skills: Seq<Skill>) -> Seq<Seq<char>> {
    Seq::new(skills.len(), |i: int| quoted(skills[i].name@))
}

/// The lines on all skills.
pub fn list(skills: &Vec<Skill>) -> (r: Vec<String>)
    ensures
        strs(r@) == (if skills@.len() == 0 {
            seq!["no skills found (add directories under .cowboy/skills/<name>/SKILL.md)"@]
        } else {
            Seq::new(skills@.len(), |i: int| skill_line(skills@[i]))
        }),
{
    let mut out: Vec<String> = Vec::new();
    if skills.len() == 0 {
        push_text(
            &mut out,
            "no skills found (add directories under .cowboy/skills/<name>/SKILL.md)".to_owned(),
        );
        assert(strs(out@) =~= seq![
            "no skills found (add directories under .cowboy/skills/<name>/SKILL.md)"@,
        ]);
        return out;
    }
    let ghost all = Seq::new(skills@.len(), |i: int| skill_line(skills@[i]));
    let mut i: usize = 0;
    assert(strs(out@) =~= all.take(0));
    while i < skills.len()
        invariant
            i <= skills@.len(),
            all == Seq::new(skills@.len(), |i: int| skill_line(skills@[i])),
            strs(out@) == all.take(i as int),
        decreases skills.len() - i,
    {
        let s = &skills[i];
        let mut line = padded_right(&s.name, 20);
        line.push_str(" ");
        line.push_str(&s.description);
        line.push_str(
            if s.global {
                " (global)"
            } else {
                ""
            },
        );
        assert(line@ == all[i as int]);
        push_text(&mut out, line);
        assert(strs(out@) =~= all.take(i + 1));
        i = i + 1;
    }
    assert(all.take(all.len() as int) =~= all);
    out
}

/// That there is no such skill, and which there are.
pub open spec fn no_skill(name: Seq<char>, skills: Seq<Skill>) -> Seq<char> {
    "no skill named "@ + quoted(name) + "; available: ["@ + join(all_quoted(skills), ", "@) + "]"@
}

/// The instructions of the skill of a name, `found` being it where there is one.
pub fn show(name: &str, found: Option<Skill>, skills: &Vec<Skill>) -> (r: Result<String, String>)
    ensures
        match found {
            Some(s) => r == Ok::<String, String>(s.instructions),
            None => r matches Err(why) && why@ == no_skill(name@, skills@),
        },
{
    match found {
        Some(s) => Ok(s.instructions),
        None => {
            let mut names: Vec<String> = Vec::new();
            let ghost all = all_quoted(skills@);
            let mut i: usize = 0;
            assert(strs(names@) =~= all.take(0));
            while i < skills.len()
                invariant
                    i <= skills@.len(),
                    all == all_quoted(skills@),
                    strs(names@) == all.take(i as int),
                decreases skills.len() - i,
            {
                push_text(&mut names, quote(&skills[i].name));
                assert(strs(names@) =~= all.take(i + 1));
                i = i + 1;
            }
            assert(all.take(all.len() as int) =~= all);
            let mut why = "no skill named ".to_owned();
            why.push_str(&quote(name));
            why.push_str("; available: [");
            why.push_str(&joined(&names, ", "));
            why.push_str("]");
            Err(why)
        },
    }
}

/// What is printed for what is asked of the skills, `found` being the one of the name
/// asked for.
pub fn run(command: &SkillCommand, skills: &Vec<Skill>, found: Option<Skill>) -> (r: Result<
    Vec<String>,
    String,
>)
    ensures
        match *command {
            SkillCommand::List => r matches Ok(lines) && strs(lines@) == (if skills@.len() == 0 {
                seq!["no skills found (add directories under .cowboy/skills/<name>/SKILL.md)"@]
            } else {
                Seq::new(skills@.len(), |i: int| skill_line(skills@[i]))
            }),
            SkillCommand::Show { name } => match found {
                Some(s) => r matches Ok(lines) && strs(lines@) == seq![s.instructions@],
                None => r matches Err(why) && why@ == no_skill(name@, skills@),
            },
        },
{
    match command {
        SkillCommand::List => Ok(list(skills)),
        SkillCommand::Show { name } => match show(name, found, skills) {
            Ok(text) => {
                let mut out: Vec<String> = Vec::new();
                push_text(&mut out, text);
                assert(strs(out@) =~= seq![text@]);
                Ok(out)
            },
            Err(why) => Err(why),
        },
    }
}

} // verus!
