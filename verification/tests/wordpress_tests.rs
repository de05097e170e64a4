use vb_manager::wordpress::{categories_query, CategoriesRequest};
use vb_manager::wordpress::next_posts_page;
use vb_manager::wordpress::link_target;
use vb_manager::wordpress::{
    author_names, decimal_text, join_ids, post_doi, post_subtitle, posts_query,
    posts_response_counts, posts_url, Category, CategoryTree, CoAuthor, HierarchicalCategory,
    PostAcf, PostsRequest, WordpressAPIContext, WordpressAPIError,
};

fn cat(id: usize, parent: usize, name: &str) -> Category {
    Category {
        id,
        count: 1,
        description: String::new(),
        name: name.to_string(),
        slug: name.to_lowercase(),
        parent,
    }
}

#[test]
fn category_tree_nests_children_and_drops_orphans() {
    let cats = vec![
        cat(2, 1, "Child"),
        cat(1, 0, "Top"),
        cat(4, 99, "Orphan"),
        cat(3, 0, "Other"),
        cat(5, 2, "Grandchild"),
    ];
    let tree = CategoryTree::from_categories(cats);
    let top: Vec<usize> = tree.categories.iter().map(|c| c.id).collect();
    assert_eq!(top, vec![1, 3]);
    assert_eq!(tree.categories[0].children.len(), 1);
    assert_eq!(tree.categories[0].children[0].id, 2);
    assert_eq!(tree.categories[0].children[0].children[0].id, 5);
    assert!(tree.categories[1].children.is_empty());
}

#[test]
fn add_children_moves_matching_categories_in_order() {
    let mut node = HierarchicalCategory::from_category(cat(7, 0, "Node"));
    let mut rest = vec![cat(8, 7, "A"), cat(9, 1, "B"), cat(10, 7, "C")];
    node.add_children(&mut rest);
    let kids: Vec<usize> = node.children.iter().map(|c| c.id).collect();
    assert_eq!(kids, vec![8, 10]);
    assert_eq!(rest.len(), 1);
    assert_eq!(rest[0].id, 9);
}

#[test]
fn add_children_places_grandchildren_and_keeps_the_rest_in_order() {
    let mut root = HierarchicalCategory::from_category(cat(0, 0, "Root"));
    let mut rest = vec![cat(3, 1, "G"), cat(1, 0, "A"), cat(4, 9, "X"), cat(2, 0, "B"), cat(5, 8, "Y")];
    root.add_children(&mut rest);
    let kids: Vec<usize> = root.children.iter().map(|c| c.id).collect();
    assert_eq!(kids, vec![1, 2]);
    assert_eq!(root.children[0].children.len(), 1);
    assert_eq!(root.children[0].children[0].id, 3);
    assert!(root.children[0].children[0].children.is_empty());
    assert!(root.children[1].children.is_empty());
    let left: Vec<usize> = rest.iter().map(|c| c.id).collect();
    assert_eq!(left, vec![4, 5]);
}

#[test]
fn doi_prefers_the_crossref_doi() {
    let acf = Some(PostAcf {
        subheadline: Some("Sub".to_string()),
        copyright: None,
        doi: Some("10.1/doi".to_string()),
        crossref_doi: Some("10.2/crossref".to_string()),
    });
    assert_eq!(post_doi(&acf), Some("10.2/crossref".to_string()));
    assert_eq!(post_subtitle(&acf), Some("Sub".to_string()));
    let plain = Some(PostAcf { subheadline: None, copyright: None, doi: Some("10.1/doi".to_string()), crossref_doi: None });
    assert_eq!(post_doi(&plain), Some("10.1/doi".to_string()));
    assert_eq!(post_doi(&None), None);
    assert_eq!(post_subtitle(&None), None);
}

#[test]
fn author_names_drop_repeated_neighbours() {
    let co = Some(vec![
        CoAuthor { display_name: "A".to_string() },
        CoAuthor { display_name: "B".to_string() },
        CoAuthor { display_name: "B".to_string() },
        CoAuthor { display_name: "C".to_string() },
        CoAuthor { display_name: "A".to_string() },
    ]);
    assert_eq!(author_names(Some("A".to_string()), &co), vec!["A", "B", "C", "A"]);
    assert_eq!(author_names(Some("A".to_string()), &None), vec!["A"]);
    assert!(author_names(None, &co).is_empty());
}

#[test]
fn decimal_texts_and_joined_ids() {
    assert_eq!(decimal_text(0), "0");
    assert_eq!(decimal_text(1234), "1234");
    assert_eq!(join_ids(&vec![1, 22, 333]), "1,22,333");
    assert_eq!(join_ids(&vec![]), "");
    assert_eq!(posts_url("example.org"), "https://example.org/wp-json/wp/v2/posts");
}

fn request(context: WordpressAPIContext) -> PostsRequest {
    PostsRequest {
        context,
        page: None,
        per_page: None,
        search: None,
        after: None,
        modified_after: None,
        before: None,
        modified_before: None,
        slug: None,
        categories: None,
        categories_exclude: None,
    }
}

#[test]
fn posts_query_lists_the_given_parameters_in_order() {
    let mut q = request(WordpressAPIContext::View);
    q.page = Some(2);
    q.per_page = Some(100);
    q.after = Some("2024-01-02 00:00:00".to_string());
    q.slug = Some("my-post".to_string());
    q.categories = Some(vec![]);
    q.categories_exclude = Some(vec![3, 4]);
    let query = posts_query(&q).unwrap();
    let expected: Vec<(String, String)> = vec![
        ("context", "view"),
        ("page", "2"),
        ("per_page", "100"),
        ("after", "2024-01-02 00:00:00"),
        ("slug", "my-post"),
        ("categories_exclude", "3,4"),
    ]
    .into_iter()
    .map(|(a, b)| (a.to_string(), b.to_string()))
    .collect();
    assert_eq!(query, expected);
    let embed = posts_query(&request(WordpressAPIContext::Embed)).unwrap();
    assert_eq!(embed, vec![("context".to_string(), "embed".to_string())]);
}

#[test]
fn posts_query_refuses_the_edit_context() {
    assert_eq!(
        posts_query(&request(WordpressAPIContext::Edit)),
        Err(WordpressAPIError::Unsupported("edit api context isn't supported yet!".to_string()))
    );
}

#[test]
fn posts_response_counts_read_the_headers() {
    assert_eq!(posts_response_counts(400, Some("1"), Some("1")), Err(WordpressAPIError::NotFound));
    assert_eq!(posts_response_counts(200, Some("10"), Some("2")), Ok((10, 2)));
    assert_eq!(
        posts_response_counts(200, None, Some("2")),
        Err(WordpressAPIError::UnexpectedResponse)
    );
    assert_eq!(
        posts_response_counts(200, Some("ten"), Some("2")),
        Err(WordpressAPIError::UnexpectedResponse)
    );
}

#[test]
fn context_names() {
    assert_eq!(WordpressAPIContext::View.as_str(), "view");
    assert_eq!(WordpressAPIContext::Edit.as_str(), "edit");
    assert_eq!(WordpressAPIContext::Embed.as_str(), "embed");
}

#[test]
fn categories_query_sends_id_lists_even_when_empty() {
    let q = CategoriesRequest {
        page: Some(1),
        per_page: Some(100),
        search: None,
        exclude: Some(vec![]),
        included: Some(vec![4, 5]),
        slug: None,
        hide_empty: Some(true),
        parent: Some(0),
        post: None,
    };
    let expected: Vec<(String, String)> = vec![
        ("page", "1"),
        ("per_page", "100"),
        ("exclude", ""),
        ("include", "4,5"),
        ("hide_empty", "true"),
        ("parent", "0"),
    ]
    .into_iter()
    .map(|(a, b)| (a.to_string(), b.to_string()))
    .collect();
    assert_eq!(categories_query(&q), expected);
}

#[test]
fn paging_stops_at_the_last_page() {
    assert_eq!(next_posts_page(1, 3), Some(2));
    assert_eq!(next_posts_page(3, 3), None);
    assert_eq!(next_posts_page(1, 0), None);
}

#[test]
fn post_links_give_host_and_slug() {
    assert_eq!(
        link_target("https://blog.example.org/2024/01/my-post/"),
        Ok(("blog.example.org".to_string(), "my-post".to_string()))
    );
    assert_eq!(
        link_target("https://blog.example.org"),
        Ok(("blog.example.org".to_string(), "".to_string()))
    );
    assert_eq!(link_target("mailto:someone"), Err(WordpressAPIError::InvalidURL));
    assert_eq!(link_target("not a url"), Err(WordpressAPIError::InvalidURL));
    assert_eq!(
        link_target("http://10.0.0.1/a/b"),
        Ok(("10.0.0.1".to_string(), "b".to_string()))
    );
}

#[test]
fn add_children_grows_every_existing_child_in_order() {
    let mut a = HierarchicalCategory::from_category(cat(1, 0, "A"));
    a.children.push(HierarchicalCategory::from_category(cat(7, 1, "Seven")));
    let mut root = HierarchicalCategory::from_category(cat(0, 0, "Root"));
    root.children.push(a);
    let mut rest = vec![cat(8, 7, "E"), cat(9, 1, "N"), cat(10, 7, "T")];
    root.add_children(&mut rest);
    assert_eq!(root.children.len(), 1);
    let a = &root.children[0];
    let kids: Vec<usize> = a.children.iter().map(|c| c.id).collect();
    assert_eq!(kids, vec![7, 9]);
    let grand: Vec<usize> = a.children[0].children.iter().map(|c| c.id).collect();
    assert_eq!(grand, vec![8, 10]);
    assert!(a.children[1].children.is_empty());
    assert!(rest.is_empty());
}
