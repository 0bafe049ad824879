//! The document model: a Theme is a tree of sub-themes, difficulties,
//! questions and resources. Each type has a mathematical view (`ThemeView`
//! and friends) that the cache's contracts are stated over, and a `Clone`
//! that provably preserves that view.

use vstd::prelude::*;

verus! {

#[derive(Debug, Clone, Copy)]
pub enum DifficultyLevel {
    Easy,
    Medium,
    Hard,
}

#[derive(Debug, Clone, Copy)]
pub enum ResourceType {
    Text,
    Image,
    Scene,
    Audio,
    Video,
}

#[derive(Debug)]
pub struct Resource {
    pub resource_name: String,
    pub resource_type: ResourceType,
    pub resource_uri: String,
}

#[derive(Debug)]
pub struct Question {
    pub id: u32,
    pub resources: Vec<Resource>,
}

#[derive(Debug)]
pub struct Difficulty {
    pub level: DifficultyLevel,
    pub questions: Vec<Question>,
}

#[derive(Debug)]
pub struct SubTheme {
    pub name: String,
    pub difficulties: Vec<Difficulty>,
}

#[derive(Debug)]
pub struct Theme {
    pub name: String,
    pub sub_themes: Vec<SubTheme>,
}

pub ghost struct ResourceView {
    pub resource_name: Seq<char>,
    pub resource_type: ResourceType,
    pub resource_uri: Seq<char>,
}

pub ghost struct QuestionView {
    pub id: u32,
    pub resources: Seq<ResourceView>,
}

pub ghost struct DifficultyView {
    pub level: DifficultyLevel,
    pub questions: Seq<QuestionView>,
}

pub ghost struct SubThemeView {
    pub name: Seq<char>,
    pub difficulties: Seq<DifficultyView>,
}

pub ghost struct ThemeView {
    pub name: Seq<char>,
    pub sub_themes: Seq<SubThemeView>,
}

pub open spec fn resources_view(s: Seq<Resource>) -> Seq<ResourceView> {
    s.map_values(|x: Resource| x@)
}

pub open spec fn questions_view(s: Seq<Question>) -> Seq<QuestionView> {
    s.map_values(|x: Question| x@)
}

pub open spec fn difficulties_view(s: Seq<Difficulty>) -> Seq<DifficultyView> {
    s.map_values(|x: Difficulty| x@)
}

pub open spec fn sub_themes_view(s: Seq<SubTheme>) -> Seq<SubThemeView> {
    s.map_values(|x: SubTheme| x@)
}

impl View for Resource {
    type V = ResourceView;

    open spec fn view(&self) -> ResourceView {
        ResourceView {
            resource_name: self.resource_name@,
            resource_type: self.resource_type,
            resource_uri: self.resource_uri@,
        }
    }
}

impl View for Question {
    type V = QuestionView;

    open spec fn view(&self) -> QuestionView {
        QuestionView { id: self.id, resources: resources_view(self.resources@) }
    }
}

impl View for Difficulty {
    type V = DifficultyView;

    open spec fn view(&self) -> DifficultyView {
        DifficultyView { level: self.level, questions: questions_view(self.questions@) }
    }
}

impl View for SubTheme {
    type V = SubThemeView;

    open spec fn view(&self) -> SubThemeView {
        SubThemeView { name: self.name@, difficulties: difficulties_view(self.difficulties@) }
    }
}

impl View for Theme {
    type V = ThemeView;

    open spec fn view(&self) -> ThemeView {
        ThemeView { name: self.name@, sub_themes: sub_themes_view(self.sub_themes@) }
    }
}

impl Clone for Resource {
    fn clone(&self) -> (r: Self)
        ensures
            r@ == self@,
    {
        Resource {
            resource_name: self.resource_name.clone(),
            resource_type: self.resource_type,
            resource_uri: self.resource_uri.clone(),
        }
    }
}

fn clone_resources(v: &Vec<Resource>) -> (r: Vec<Resource>)
    ensures
        resources_view(r@) == resources_view(v@),
{
    let mut out: Vec<Resource> = Vec::new();
    let mut i: usize = 0;
    while i < v.len()
        invariant
            i <= v.len(),
            out@.len() == i,
            forall|j: int| 0 <= j < i ==> out@[j]@ == v@[j]@,
        decreases v.len() - i,
    {
        out.push(v[i].clone());
        i += 1;
    }
    proof {
        assert(resources_view(out@) =~= resources_view(v@));
    }
    out
}

impl Clone for Question {
    fn clone(&self) -> (r: Self)
        ensures
            r@ == self@,
    {
        Question { id: self.id, resources: clone_resources(&self.resources) }
    }
}

fn clone_questions(v: &Vec<Question>) -> (r: Vec<Question>)
    ensures
        questions_view(r@) == questions_view(v@),
{
    let mut out: Vec<Question> = Vec::new();
    let mut i: usize = 0;
    while i < v.len()
        invariant
            i <= v.len(),
            out@.len() == i,
            forall|j: int| 0 <= j < i ==> out@[j]@ == v@[j]@,
        decreases v.len() - i,
    {
        out.push(v[i].clone());
        i += 1;
    }
    proof {
        assert(questions_view(out@) =~= questions_view(v@));
    }
    out
}

impl Clone for Difficulty {
    fn clone(&self) -> (r: Self)
        ensures
            r@ == self@,
    {
        Difficulty { level: self.level, questions: clone_questions(&self.questions) }
    }
}

fn clone_difficulties(v: &Vec<Difficulty>) -> (r: Vec<Difficulty>)
    ensures
        difficulties_view(r@) == difficulties_view(v@),
{
    let mut out: Vec<Difficulty> = Vec::new();
    let mut i: usize = 0;
    while i < v.len()
        invariant
            i <= v.len(),
            out@.len() == i,
            forall|j: int| 0 <= j < i ==> out@[j]@ == v@[j]@,
        decreases v.len() - i,
    {
        out.push(v[i].clone());
        i += 1;
    }
    proof {
        assert(difficulties_view(out@) =~= difficulties_view(v@));
    }
    out
}

impl Clone for SubTheme {
    fn clone(&self) -> (r: Self)
        ensures
            r@ == self@,
    {
        SubTheme { name: self.name.clone(), difficulties: clone_difficulties(&self.difficulties) }
    }
}

fn clone_sub_themes(v: &Vec<SubTheme>) -> (r: Vec<SubTheme>)
    ensures
        sub_themes_view(r@) == sub_themes_view(v@),
{
    let mut out: Vec<SubTheme> = Vec::new();
    let mut i: usize = 0;
    while i < v.len()
        invariant
            i <= v.len(),
            out@.len() == i,
            forall|j: int| 0 <= j < i ==> out@[j]@ == v@[j]@,
        decreases v.len() - i,
    {
        out.push(v[i].clone());
        i += 1;
    }
    proof {
        assert(sub_themes_view(out@) =~= sub_themes_view(v@));
    }
    out
}

impl Clone for Theme {
    fn clone(&self) -> (r: Self)
        ensures
            r@ == self@,
    {
        Theme { name: self.name.clone(), sub_themes: clone_sub_themes(&self.sub_themes) }
    }
}

impl Theme {
    /// A fresh document with the given name and no sub-themes.
    pub fn new(name: &str) -> (t: Self)
        ensures
            t@.name == name@,
            t@.sub_themes == Seq::<SubThemeView>::empty(),
    {
        let t = Theme { name: name.to_owned(), sub_themes: Vec::new() };
        proof {
            assert(t@.sub_themes =~= Seq::<SubThemeView>::empty());
        }
        t
    }

    /// Appends a sub-theme at the end of the document's ordered sequence.
    pub fn add_subtheme(&mut self, sub_theme: SubTheme)
        ensures
            final(self)@.name == old(self)@.name,
            final(self)@.sub_themes == old(self)@.sub_themes.push(sub_theme@),
    {
        self.sub_themes.push(sub_theme);
        proof {
            assert(final(self)@.sub_themes =~= old(self)@.sub_themes.push(sub_theme@));
        }
    }
}

impl SubTheme {
    /// A fresh sub-theme with the given name and no difficulties.
    pub fn new(name: &str) -> (s: Self)
        ensures
            s@.name == name@,
            s@.difficulties == Seq::<DifficultyView>::empty(),
    {
        let s = SubTheme { name: name.to_owned(), difficulties: Vec::new() };
        proof {
            assert(s@.difficulties =~= Seq::<DifficultyView>::empty());
        }
        s
    }
}

impl Difficulty {
    /// A fresh difficulty of the given level with no questions.
    pub fn new(level: DifficultyLevel) -> (d: Self)
        ensures
            d@.level == level,
            d@.questions == Seq::<QuestionView>::empty(),
    {
        let d = Difficulty { level, questions: Vec::new() };
        proof {
            assert(d@.questions =~= Seq::<QuestionView>::empty());
        }
        d
    }
}

impl Question {
    /// A fresh question with the given id and resources.
    pub fn new(id: u32, resources: Vec<Resource>) -> (q: Self)
        ensures
            q@.id == id,
            q@.resources == resources_view(resources@),
    {
        Question { id, resources }
    }
}

} // verus!
