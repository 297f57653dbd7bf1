use vstd::prelude::*;

verus! {

/// One element of the parsed tree. `name` defaults to `div` when the source
/// line names none; `attrs` is an order-preserving mapping (insertion order,
/// keys unique, a later occurrence of a key overwrites the earlier value in
/// place); `classes` keeps declaration order, duplicates included; `content`
/// is the raw trailing text of the element's own line; `children` are the
/// elements nested exactly one indentation level deeper.
#[derive(Debug, PartialEq, Eq)]
pub struct Tag {
    pub name: String,
    pub attrs: Vec<(String, Option<String>)>,
    pub id: Option<String>,
    pub classes: Vec<String>,
    pub children: Vec<Tag>,
    pub content: Option<String>,
}

/// Mathematical model of a [`Tag`].
pub struct TagV {
    pub name: Seq<char>,
    pub attrs: Seq<(Seq<char>, Option<Seq<char>>)>,
    pub id: Option<Seq<char>>,
    pub classes: Seq<Seq<char>>,
    pub children: Seq<TagV>,
    pub content: Option<Seq<char>>,
}

pub open spec fn opt_view(o: Option<String>) -> Option<Seq<char>> {
    match o {
        Some(s) => Some(s@),
        None => None,
    }
}

pub open spec fn attrs_view(attrs: Seq<(String, Option<String>)>) -> Seq<
    (Seq<char>, Option<Seq<char>>),
> {
    attrs.map_values(|p: (String, Option<String>)| (p.0@, opt_view(p.1)))
}

pub open spec fn tag_view(t: Tag) -> TagV
    decreases t,
{
    TagV {
        name: t.name@,
        attrs: attrs_view(t.attrs@),
        id: opt_view(t.id),
        classes: t.classes@.map_values(|s: String| s@),
        children: tags_view(t.children@, 0),
        content: opt_view(t.content),
    }
}

pub open spec fn tags_view(ts: Seq<Tag>, i: nat) -> Seq<TagV>
    decreases ts, ts.len() - i,
{
    if i < ts.len() {
        seq![tag_view(ts[i as int])] + tags_view(ts, i + 1)
    } else {
        Seq::empty()
    }
}

/// The models of the tags of a vector, in order.
pub open spec fn vtags_view(ts: Seq<Tag>) -> Seq<TagV> {
    tags_view(ts, 0)
}

impl View for Tag {
    type V = TagV;

    open spec fn view(&self) -> TagV {
        tag_view(*self)
    }
}

pub proof fn lemma_tags_view(ts: Seq<Tag>, i: nat)
    requires
        i <= ts.len(),
    ensures
        tags_view(ts, i).len() == ts.len() - i,
        forall|k: int|
            0 <= k < ts.len() - i ==> tags_view(ts, i)[k] == tag_view(ts[i + k]),
    decreases ts.len() - i,
{
    if i < ts.len() {
        lemma_tags_view(ts, i + 1);
    }
}

pub proof fn lemma_vtags_view_push(ts: Seq<Tag>, t: Tag)
    ensures
        vtags_view(ts.push(t)) == vtags_view(ts).push(tag_view(t)),
{
    lemma_tags_view(ts, 0);
    lemma_tags_view(ts.push(t), 0);
    assert(vtags_view(ts.push(t)) =~= vtags_view(ts).push(tag_view(t)));
}

// ---------------------------------------------------------------------------
// Serialization to markup text.
// ---------------------------------------------------------------------------

/// The standard markup void elements: they render self-closing and must not
/// carry children or content.
pub open spec fn void_name(n: Seq<char>) -> bool {
    ||| n == "area"@
    ||| n == "base"@
    ||| n == "br"@
    ||| n == "col"@
    ||| n == "embed"@
    ||| n == "hr"@
    ||| n == "img"@
    ||| n == "input"@
    ||| n == "link"@
    ||| n == "meta"@
    ||| n == "param"@
    ||| n == "source"@
    ||| n == "track"@
    ||| n == "wbr"@
}

/// One attribute: ` key="value"`, or the bare ` key` when it has no value.
pub open spec fn render_attr(k: Seq<char>, v: Option<Seq<char>>) -> Seq<char> {
    match v {
        Some(val) => " "@ + k + "=\""@ + val + "\""@,
        None => " "@ + k,
    }
}

pub open spec fn render_attrs(attrs: Seq<(Seq<char>, Option<Seq<char>>)>, i: nat) -> Seq<char>
    decreases attrs.len() - i,
{
    if i < attrs.len() {
        render_attr(attrs[i as int].0, attrs[i as int].1) + render_attrs(attrs, i + 1)
    } else {
        Seq::empty()
    }
}

/// The class list joined with single spaces, in declaration order.
pub open spec fn join_classes(cs: Seq<Seq<char>>, i: nat) -> Seq<char>
    decreases cs.len() - i,
{
    if i < cs.len() {
        (if i > 0 {
            " "@
        } else {
            Seq::<char>::empty()
        }) + cs[i as int] + join_classes(cs, i + 1)
    } else {
        Seq::empty()
    }
}

/// The `id` and `class` attributes, appended after the ordinary attributes;
/// `class` only when the class list is non-empty.
pub open spec fn render_extra(t: TagV) -> Seq<char> {
    (match t.id {
        Some(v) => " id=\""@ + v + "\""@,
        None => Seq::<char>::empty(),
    }) + (if t.classes.len() > 0 {
        " class=\""@ + join_classes(t.classes, 0) + "\""@
    } else {
        Seq::<char>::empty()
    })
}

/// The markup text of one element: `<name attrs id class>content children</name>`,
/// or the self-closing `<name attrs id class/>` for a void element.
pub open spec fn htmlify_spec(t: TagV) -> Seq<char>
    decreases t,
{
    let head = "<"@ + t.name + render_attrs(t.attrs, 0) + render_extra(t);
    if void_name(t.name) {
        head + "/>"@
    } else {
        head + ">"@ + (match t.content {
            Some(c) => c,
            None => Seq::<char>::empty(),
        }) + render_children(t.children, 0) + "</"@ + t.name + ">"@
    }
}

pub open spec fn render_children(ts: Seq<TagV>, i: nat) -> Seq<char>
    decreases ts, ts.len() - i,
{
    if i < ts.len() {
        htmlify_spec(ts[i as int]) + render_children(ts, i + 1)
    } else {
        Seq::empty()
    }
}

/// The serializer's invariant: no void element anywhere in the tree carries
/// children or content.
pub open spec fn tag_renderable(t: TagV) -> bool
    decreases t,
{
    &&& (void_name(t.name) ==> t.children.len() == 0 && t.content is None)
    &&& tags_renderable(t.children, 0)
}

pub open spec fn tags_renderable(ts: Seq<TagV>, i: nat) -> bool
    decreases ts, ts.len() - i,
{
    if i < ts.len() {
        tag_renderable(ts[i as int]) && tags_renderable(ts, i + 1)
    } else {
        true
    }
}

/// Law: a void element that carries children or content never passes the
/// serializer boundary — no tree holding one is renderable, so no markup
/// string nesting anything inside a void element is ever produced.
pub proof fn lemma_void_not_renderable(t: TagV)
    requires
        void_name(t.name),
        t.children.len() > 0 || !(t.content is None),
    ensures
        !tag_renderable(t),
{
}

pub proof fn lemma_tags_renderable_iff(ts: Seq<TagV>, i: nat)
    requires
        i <= ts.len(),
    ensures
        tags_renderable(ts, i) <==> (forall|k: int| i <= k < ts.len() ==> tag_renderable(ts[k])),
    decreases ts.len() - i,
{
    if i < ts.len() {
        lemma_tags_renderable_iff(ts, i + 1);
    }
}

/// Compare two strings character by character.
fn str_eq(a: &str, b: &str) -> (r: bool)
    ensures
        r == (a@ == b@),
{
    let n = a.unicode_len();
    let m = b.unicode_len();
    if n != m {
        return false;
    }
    let mut i: usize = 0;
    while i < n
        invariant
            i <= n,
            n == a@.len(),
            n == b@.len(),
            forall|k: int| 0 <= k < i ==> a@[k] == b@[k],
        decreases n - i,
    {
        if a.get_char(i) != b.get_char(i) {
            return false;
        }
        i = i + 1;
    }
    proof {
        assert(a@ =~= b@);
    }
    true
}

/// Whether `name` is one of the void elements.
fn is_void(name: &str) -> (b: bool)
    ensures
        b == void_name(name@),
{
    str_eq(name, "area") || str_eq(name, "base") || str_eq(name, "br") || str_eq(name, "col")
        || str_eq(name, "embed") || str_eq(name, "hr") || str_eq(name, "img") || str_eq(
        name,
        "input",
    ) || str_eq(name, "link") || str_eq(name, "meta") || str_eq(name, "param") || str_eq(
        name,
        "source",
    ) || str_eq(name, "track") || str_eq(name, "wbr")
}

/// Append ` key="value"` (or the bare ` key`) to `out`.
fn push_attr(out: &mut String, k: &String, v: &Option<String>)
    ensures
        final(out)@ == old(out)@ + render_attr(k@, opt_view(*v)),
{
    out.append(" ");
    out.append(k.as_str());
    match v {
        Some(val) => {
            out.append("=\"");
            out.append(val.as_str());
            out.append("\"");
        },
        None => {},
    }
    proof {
        assert(out@ =~= old(out)@ + render_attr(k@, opt_view(*v)));
    }
}

impl Tag {
    /// Whether this tree obeys the serializer's invariant: no void element in
    /// it carries children or content.
    pub fn renderable(&self) -> (b: bool)
        ensures
            b == tag_renderable(self@),
        decreases *self,
    {
        proof {
            lemma_tags_view(self.children@, 0);
            lemma_tags_renderable_iff(self@.children, 0);
        }
        if is_void(self.name.as_str()) {
            if self.children.len() > 0 {
                return false;
            }
            if self.content.is_some() {
                return false;
            }
        }
        let n = self.children.len();
        let mut i: usize = 0;
        while i < n
            invariant
                i <= n,
                n == self.children@.len(),
                self@.children == tags_view(self.children@, 0),
                self@.children.len() == n,
                forall|k: int| 0 <= k < self@.children.len() ==> self@.children[k] == tag_view(
                    self.children@[k],
                ),
                void_name(self@.name) ==> self@.children.len() == 0 && self@.content is None,
                forall|k: int| 0 <= k < i ==> tag_renderable(self@.children[k]),
            decreases n - i,
        {
            if !self.children[i].renderable() {
                proof {
                    assert(self@.children[i as int] == tag_view(self.children@[i as int]));
                    assert(!tag_renderable(self@.children[i as int]));
                    lemma_tags_renderable_iff(self@.children, 0);
                    assert(!tags_renderable(self@.children, 0));
                }
                return false;
            }
            i = i + 1;
        }
        proof {
            lemma_tags_renderable_iff(self@.children, 0);
        }
        true
    }

    /// Render this element as markup text. The tree must obey the
    /// serializer's invariant (see [`Tag::renderable`]).
    pub fn htmlify(&self) -> (r: String)
        requires
            tag_renderable(self@),
        ensures
            r@ == htmlify_spec(self@),
        decreases *self,
    {
        proof {
            lemma_tags_view(self.children@, 0);
            lemma_tags_renderable_iff(self@.children, 0);
        }
        let mut out = String::new();
        out.append("<");
        out.append(self.name.as_str());
        let na = self.attrs.len();
        let mut i: usize = 0;
        while i < na
            invariant
                i <= na,
                na == self.attrs@.len(),
                self@.attrs == attrs_view(self.attrs@),
                out@ + render_attrs(self@.attrs, i as nat) =~= "<"@ + self@.name + render_attrs(
                    self@.attrs,
                    0,
                ),
            decreases na - i,
        {
            let ghost prev = out@;
            push_attr(&mut out, &self.attrs[i].0, &self.attrs[i].1);
            proof {
                assert(render_attrs(self@.attrs, i as nat) == render_attr(
                    self@.attrs[i as int].0,
                    self@.attrs[i as int].1,
                ) + render_attrs(self@.attrs, i as nat + 1));
                assert(out@ + render_attrs(self@.attrs, i as nat + 1) =~= prev + render_attrs(
                    self@.attrs,
                    i as nat,
                ));
            }
            i = i + 1;
        }
        proof {
            assert(out@ =~= "<"@ + self@.name + render_attrs(self@.attrs, 0));
        }
        match &self.id {
            Some(idv) => {
                out.append(" id=\"");
                out.append(idv.as_str());
                out.append("\"");
            },
            None => {},
        }
        if self.classes.len() > 0 {
            out.append(" class=\"");
            let nc = self.classes.len();
            let ghost mid = out@;
            let mut j: usize = 0;
            while j < nc
                invariant
                    j <= nc,
                    nc == self.classes@.len(),
                    nc > 0,
                    self@.classes == self.classes@.map_values(|s: String| s@),
                    out@ + join_classes(self@.classes, j as nat) =~= mid + join_classes(
                        self@.classes,
                        0,
                    ),
                decreases nc - j,
            {
                let ghost prev = out@;
                if j > 0 {
                    out.append(" ");
                }
                out.append(self.classes[j].as_str());
                proof {
                    assert(join_classes(self@.classes, j as nat) == (if j > 0 {
                        " "@
                    } else {
                        Seq::<char>::empty()
                    }) + self@.classes[j as int] + join_classes(self@.classes, j as nat + 1));
                    assert(out@ + join_classes(self@.classes, j as nat + 1) =~= prev
                        + join_classes(self@.classes, j as nat));
                }
                j = j + 1;
            }
            out.append("\"");
            proof {
                assert(out@ =~= mid + join_classes(self@.classes, 0) + "\""@);
            }
        }
        proof {
            assert(out@ =~= "<"@ + self@.name + render_attrs(self@.attrs, 0) + render_extra(
                self@,
            ));
        }
        let ghost head = out@;
        if is_void(self.name.as_str()) {
            out.append("/>");
            proof {
                assert(out@ =~= htmlify_spec(self@));
            }
            return out;
        }
        out.append(">");
        match &self.content {
            Some(c) => {
                out.append(c.as_str());
            },
            None => {},
        }
        let ghost body = out@;
        let n = self.children.len();
        let mut i: usize = 0;
        while i < n
            invariant
                i <= n,
                n == self.children@.len(),
                self@.children == tags_view(self.children@, 0),
                self@.children.len() == n,
                forall|k: int| 0 <= k < self@.children.len() ==> self@.children[k] == tag_view(
                    self.children@[k],
                ),
                forall|k: int| 0 <= k < self@.children.len() ==> tag_renderable(
                    self@.children[k],
                ),
                out@ + render_children(self@.children, i as nat) =~= body + render_children(
                    self@.children,
                    0,
                ),
            decreases n - i,
        {
            let ghost prev = out@;
            let piece = self.children[i].htmlify();
            out.append(piece.as_str());
            proof {
                assert(render_children(self@.children, i as nat) == htmlify_spec(
                    self@.children[i as int],
                ) + render_children(self@.children, i as nat + 1));
                assert(out@ + render_children(self@.children, i as nat + 1) =~= prev
                    + render_children(self@.children, i as nat));
            }
            i = i + 1;
        }
        out.append("</");
        out.append(self.name.as_str());
        out.append(">");
        proof {
            assert(out@ =~= htmlify_spec(self@));
        }
        out
    }
}

} // verus!

